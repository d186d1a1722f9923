//! JSONPath query parser.
//!
//! The accepted syntax: optional white space, `$`, then any number of
//! segments written without spaces between them:
//! `.name`, `.*`, `..name`, `..*`, `[*]`, `[n]`, `[start:end]` (either
//! bound may be left out; bounds may be negative), `['name']` and
//! `['a', 'b', ...]` (single or double quotes; a space may follow each
//! comma). Positions are counted in characters.
use vstd::prelude::*;
use super::ast::{JsonPath, PathSegment, SegmentModel, segments_model, strings_model};
use super::error::{JsonPathError, ErrorModel};
use crate::text::{is_whitespace, char_is_whitespace, chars_of, string_from_chars};

verus! {

/// Whether `c` is alphabetic or numeric in the Unicode sense
/// (`char::is_alphanumeric`).
pub uninterp spec fn is_alphanumeric(c: char) -> bool;

/// `char::is_alphanumeric`; its result is named `is_alphanumeric`. As std
/// documents it (alphabetic or numeric), ASCII letters and digits count,
/// and no other ASCII character does.
#[verifier::external_body]
fn char_is_alphanumeric(c: char) -> (res: bool)
    ensures
        res == is_alphanumeric(c),
        ('a' <= c <= 'z' || 'A' <= c <= 'Z' || '0' <= c <= '9') ==> res,
        ('\u{80}' > c && !('a' <= c <= 'z' || 'A' <= c <= 'Z' || '0' <= c <= '9')) ==> !res,
{
    c.is_alphanumeric()
}

/// Whether `c` may appear in a member name written without quotes.
pub open spec fn is_ident_char(c: char) -> bool {
    is_alphanumeric(c) || c == '_' || c == '-'
}

/// Whether `c` is an ASCII decimal digit.
pub open spec fn is_digit(c: char) -> bool {
    '0' <= c <= '9'
}

/// The first position at or after `p` that does not hold white space.
pub open spec fn ws_end(s: Seq<char>, p: nat) -> nat
    decreases s.len() - p,
{
    if p < s.len() && is_whitespace(s[p as int]) {
        ws_end(s, p + 1)
    } else {
        p
    }
}

/// The first position at or after `p` that does not hold a name character.
pub open spec fn ident_end(s: Seq<char>, p: nat) -> nat
    decreases s.len() - p,
{
    if p < s.len() && is_ident_char(s[p as int]) {
        ident_end(s, p + 1)
    } else {
        p
    }
}

/// The first position at or after `p` that does not hold a digit.
pub open spec fn digits_end(s: Seq<char>, p: nat) -> nat
    decreases s.len() - p,
{
    if p < s.len() && is_digit(s[p as int]) {
        digits_end(s, p + 1)
    } else {
        p
    }
}

/// The first position at or after `p` holding `q`, or the length of `s`.
pub open spec fn find_char(s: Seq<char>, p: nat, q: char) -> nat
    decreases s.len() - p,
{
    if p < s.len() && s[p as int] != q {
        find_char(s, p + 1, q)
    } else {
        p
    }
}

/// The value of a decimal digit.
pub open spec fn digit_value(c: char) -> nat {
    if is_digit(c) {
        ((c as u32) - ('0' as u32)) as nat
    } else {
        0
    }
}

/// The value of the decimal digits `s[p..e]`.
pub open spec fn digits_value(s: Seq<char>, p: nat, e: nat) -> nat
    decreases e,
{
    if e <= p {
        0
    } else {
        digits_value(s, p, (e - 1) as nat) * 10 + digit_value(s[e - 1])
    }
}

/// The text `'c'`, naming an expected character.
pub open spec fn quoted_char(c: char) -> Seq<char> {
    seq!['\'', c, '\'']
}

/// The error for a missing member name.
pub open spec fn expected_identifier() -> ErrorModel {
    ErrorModel::InvalidSyntax { message: "Expected identifier"@ }
}

/// The error for an index that does not fit in an `isize`.
pub open spec fn index_out_of_range() -> ErrorModel {
    ErrorModel::InvalidSyntax { message: "Index out of range"@ }
}

/// The error for a character other than the one wanted at `p`, or for
/// the end of the query there.
pub open spec fn wanted_at(s: Seq<char>, p: nat, wanted: Seq<char>) -> ErrorModel {
    if p < s.len() {
        ErrorModel::UnexpectedToken { position: p, found: seq![s[p as int]], expected: wanted }
    } else {
        ErrorModel::UnexpectedEnd { expected: wanted }
    }
}

/// A name that starts at `p`: the name and the position after it.
pub open spec fn name_at(s: Seq<char>, p: nat) -> Result<(Seq<char>, nat), ErrorModel> {
    let e = ident_end(s, p);
    if e == p {
        Err(expected_identifier())
    } else {
        Ok((s.subrange(p as int, e as int), e))
    }
}

/// The segment that follows a `.` at `p - 1`.
pub open spec fn dot_segment(s: Seq<char>, p: nat) -> Result<(SegmentModel, nat), ErrorModel> {
    if p < s.len() && s[p as int] == '.' {
        let r = p + 1;
        if r < s.len() && s[r as int] == '*' {
            Ok((SegmentModel::RecursiveDescent(None), r + 1))
        } else {
            match name_at(s, r) {
                Ok((n, e)) => Ok((SegmentModel::RecursiveDescent(Some(n)), e)),
                Err(err) => Err(err),
            }
        }
    } else if p < s.len() && s[p as int] == '*' {
        Ok((SegmentModel::Wildcard, p + 1))
    } else {
        match name_at(s, p) {
            Ok((n, e)) => Ok((SegmentModel::Child(n), e)),
            Err(err) => Err(err),
        }
    }
}

/// `seg` followed by a closing bracket at `p`.
pub open spec fn closed_at(s: Seq<char>, p: nat, seg: SegmentModel) -> Result<(SegmentModel, nat), ErrorModel> {
    if p < s.len() && s[p as int] == ']' {
        Ok((seg, p + 1))
    } else {
        Err(wanted_at(s, p, quoted_char(']')))
    }
}

/// An optional, possibly negative, integer at `p`: its value (if any) and
/// the position after it.
pub open spec fn int_at(s: Seq<char>, p: nat) -> Result<(Option<int>, nat), ErrorModel> {
    let neg = p < s.len() && s[p as int] == '-';
    let d = if neg {
        p + 1
    } else {
        p
    };
    let e = digits_end(s, d);
    if e == d {
        if neg {
            Err(wanted_at(s, d, "digit"@))
        } else {
            Ok((None, p))
        }
    } else if digits_value(s, d, e) > isize::MAX {
        Err(index_out_of_range())
    } else if neg {
        Ok((Some(-(digits_value(s, d, e) as int)), e))
    } else {
        Ok((Some(digits_value(s, d, e) as int), e))
    }
}

/// The contents of an index or slice bracket starting at `p`.
pub open spec fn index_segment(s: Seq<char>, p: nat) -> Result<(SegmentModel, nat), ErrorModel> {
    match int_at(s, p) {
        Err(e) => Err(e),
        Ok((first, r)) => if r < s.len() && s[r as int] == ':' {
            match int_at(s, r + 1) {
                Err(e) => Err(e),
                Ok((second, t)) => closed_at(s, t, SegmentModel::Slice(first, second)),
            }
        } else {
            match first {
                Some(i) => closed_at(s, r, SegmentModel::Index(i)),
                None => Err(wanted_at(s, r, "index"@)),
            }
        },
    }
}

/// Whether `c` opens a quoted name.
pub open spec fn is_quote(c: char) -> bool {
    c == '\'' || c == '"'
}

/// Quoted names from `p` on (a quote is at `p`), after the names `acc`.
pub open spec fn names_segment(s: Seq<char>, p: nat, acc: Seq<Seq<char>>) -> Result<
    (SegmentModel, nat),
    ErrorModel,
>
    decreases s.len() - p,
{
    if p >= s.len() {
        Err(wanted_at(s, p, "quote"@))
    } else {
        let q = s[p as int];
        let e = find_char(s, p + 1, q);
        if e >= s.len() {
            Err(wanted_at(s, e, quoted_char(q)))
        } else {
            let names = acc.push(s.subrange((p + 1) as int, e as int));
            let r = e + 1;
            if r < s.len() && s[r as int] == ',' {
                let t = ws_end(s, r + 1);
                if p < t < s.len() && is_quote(s[t as int]) {
                    names_segment(s, t, names)
                } else {
                    Err(wanted_at(s, t, "quote"@))
                }
            } else if names.len() == 1 {
                closed_at(s, r, SegmentModel::Child(names[0]))
            } else {
                closed_at(s, r, SegmentModel::MultiProperty(names))
            }
        }
    }
}

/// The segment that starts at `p` (which is inside the query): the
/// segment and the position after it.
pub open spec fn segment_at(s: Seq<char>, p: nat) -> Result<(SegmentModel, nat), ErrorModel> {
    if s[p as int] == '.' {
        dot_segment(s, p + 1)
    } else if s[p as int] == '[' {
        let q = p + 1;
        if q < s.len() && s[q as int] == '*' {
            closed_at(s, q + 1, SegmentModel::Wildcard)
        } else if q < s.len() && is_quote(s[q as int]) {
            names_segment(s, q, Seq::empty())
        } else {
            index_segment(s, q)
        }
    } else {
        Err(
            ErrorModel::UnexpectedToken {
                position: p,
                found: seq![s[p as int]],
                expected: "'.' or '['"@,
            },
        )
    }
}

/// The segments from position `p` to the end of the query.
pub open spec fn segments_from(s: Seq<char>, p: nat) -> Result<Seq<SegmentModel>, ErrorModel>
    decreases s.len() - p,
{
    if p >= s.len() {
        Ok(Seq::empty())
    } else {
        match segment_at(s, p) {
            Err(e) => Err(e),
            Ok((seg, q)) => if p < q <= s.len() {
                match segments_from(s, q) {
                    Ok(rest) => Ok(seq![seg] + rest),
                    Err(e) => Err(e),
                }
            } else {
                Err(expected_identifier())
            },
        }
    }
}

/// What parsing the query `s` gives.
pub open spec fn parse_query(s: Seq<char>) -> Result<Seq<SegmentModel>, ErrorModel> {
    let p = ws_end(s, 0);
    if p < s.len() && s[p as int] == '$' {
        match segments_from(s, p + 1) {
            Ok(rest) => Ok(seq![SegmentModel::Root] + rest),
            Err(e) => Err(e),
        }
    } else {
        Err(wanted_at(s, p, quoted_char('$')))
    }
}

/// Parser for JSONPath query strings.
pub struct Parser {
    input: Vec<char>,
    position: usize,
}

impl Parser {
    /// The characters of the query.
    pub closed spec fn chars(&self) -> Seq<char> {
        self.input@
    }

    /// The position of the next character to read.
    pub closed spec fn pos(&self) -> nat {
        self.position as nat
    }

    /// A parser at the start of `query`.
    pub fn new(query: &str) -> (res: Self)
        ensures
            res.chars() == query@,
            res.pos() == 0,
    {
        Self { input: chars_of(query), position: 0 }
    }

    /// Parses the query string into a path.
    pub fn parse(query: &str) -> (res: Result<JsonPath, JsonPathError>)
        ensures
            match (res, parse_query(query@)) {
                (Ok(p), Ok(segs)) => segments_model(p.segments@) == segs,
                (Err(e), Err(m)) => e@ == m,
                _ => false,
            },
    {
        let mut parser = Parser::new(query);
        parser.parse_path()
    }
}

fn char_string(c: char) -> (res: String)
    ensures
        res@ == seq![c],
{
    let mut s = String::new();
    s.push(c);
    assert(s@ =~= seq![c]);
    s
}

fn quoted_char_string(c: char) -> (res: String)
    ensures
        res@ == quoted_char(c),
{
    let mut s = String::new();
    s.push('\'');
    s.push(c);
    s.push('\'');
    assert(s@ =~= quoted_char(c));
    s
}

fn literal(t: &str) -> (res: String)
    ensures
        res@ == t@,
{
    crate::text::string_of(t)
}

fn wanted_error(chars: &Vec<char>, p: usize, wanted: String) -> (res: JsonPathError)
    ensures
        res@ == wanted_at(chars@, p as nat, wanted@),
{
    if p < chars.len() {
        JsonPathError::UnexpectedToken { position: p, found: char_string(chars[p]), expected: wanted }
    } else {
        JsonPathError::UnexpectedEnd { expected: wanted }
    }
}

fn expected_identifier_error() -> (res: JsonPathError)
    ensures
        res@ == expected_identifier(),
{
    JsonPathError::InvalidSyntax { message: literal("Expected identifier") }
}

fn index_out_of_range_error() -> (res: JsonPathError)
    ensures
        res@ == index_out_of_range(),
{
    JsonPathError::InvalidSyntax { message: literal("Index out of range") }
}

fn char_is_digit(c: char) -> (res: bool)
    ensures
        res == is_digit(c),
{
    '0' <= c && c <= '9'
}

fn char_is_ident(c: char) -> (res: bool)
    ensures
        res == is_ident_char(c),
{
    char_is_alphanumeric(c) || c == '_' || c == '-'
}

/// Every digit string value grows as more digits are read.
proof fn lemma_digits_monotone(s: Seq<char>, p: nat, e1: nat, e2: nat)
    requires
        e1 <= e2,
    ensures
        digits_value(s, p, e1) <= digits_value(s, p, e2),
    decreases e2 - e1,
{
    if e1 < e2 {
        lemma_digits_monotone(s, p, e1, (e2 - 1) as nat);
    }
}

impl Parser {
    /// Returns the current character without advancing.
    fn peek(&self) -> (res: Option<char>)
        ensures
            res == (if self.position < self.input@.len() {
                Some(self.input@[self.position as int])
            } else {
                None::<char>
            }),
    {
        if self.position < self.input.len() {
            Some(self.input[self.position])
        } else {
            None
        }
    }

    /// Returns the current character and advances past it.
    fn next(&mut self) -> (res: Option<char>)
        requires
            old(self).position <= old(self).input@.len(),
        ensures
            res == (if old(self).position < old(self).input@.len() {
                Some(old(self).input@[old(self).position as int])
            } else {
                None::<char>
            }),
            final(self).input@ == old(self).input@,
            final(self).position <= final(self).input@.len(),
            final(self).position == (if res is Some {
                old(self).position + 1
            } else {
                old(self).position as int
            }),
    {
        if self.position < self.input.len() {
            let c = self.input[self.position];
            self.position = self.position + 1;
            Some(c)
        } else {
            None
        }
    }

    /// Skips white space.
    fn skip_whitespace(&mut self)
        requires
            old(self).position <= old(self).input@.len(),
        ensures
            final(self).input@ == old(self).input@,
            final(self).position <= final(self).input@.len(),
            final(self).position == ws_end(old(self).input@, old(self).position as nat),
    {
        let ghost target = ws_end(self.input@, self.position as nat);
        while self.position < self.input.len() && char_is_whitespace(self.input[self.position])
            invariant
                self.input@ == old(self).input@,
                self.position <= self.input@.len(),
                ws_end(self.input@, self.position as nat) == target,
            decreases self.input@.len() - self.position,
        {
            self.position = self.position + 1;
        }
    }

    /// Whether the whole query has been read.
    fn is_eof(&self) -> (res: bool)
        ensures
            res == (self.position >= self.input@.len()),
    {
        self.position >= self.input.len()
    }

    /// Skips white space, then reads `expected`; any other character, or
    /// the end of the query, is an error.
    fn expect(&mut self, expected: char) -> (res: Result<(), JsonPathError>)
        requires
            old(self).position <= old(self).input@.len(),
        ensures
            final(self).input@ == old(self).input@,
            final(self).position <= final(self).input@.len(),
            ({
                let s = old(self).input@;
                let p = ws_end(s, old(self).position as nat);
                if p < s.len() && s[p as int] == expected {
                    res is Ok && final(self).position == p + 1
                } else {
                    res matches Err(e) && e@ == wanted_at(s, p, quoted_char(expected))
                }
            }),
    {
        self.skip_whitespace();
        let at = self.position;
        match self.next() {
            Some(ch) => {
                if ch == expected {
                    Ok(())
                } else {
                    Err(
                        JsonPathError::UnexpectedToken {
                            position: self.position - 1,
                            found: char_string(ch),
                            expected: quoted_char_string(expected),
                        },
                    )
                }
            },
            None => Err(JsonPathError::UnexpectedEnd { expected: quoted_char_string(expected) }),
        }
    }

    /// Reads a member name: the longest run of name characters.
    fn parse_identifier(&mut self) -> (res: Result<String, JsonPathError>)
        requires
            old(self).position <= old(self).input@.len(),
        ensures
            final(self).input@ == old(self).input@,
            final(self).position <= final(self).input@.len(),
            final(self).position == ident_end(old(self).input@, old(self).position as nat),
            match (res, name_at(old(self).input@, old(self).position as nat)) {
                (Ok(n), Ok((m, e))) => n@ == m,
                (Err(e), Err(m)) => e@ == m,
                _ => false,
            },
    {
        let start = self.position;
        let ghost target = ident_end(self.input@, self.position as nat);
        let mut name = String::new();
        while self.position < self.input.len() && char_is_ident(self.input[self.position])
            invariant
                self.input@ == old(self).input@,
                start <= self.position <= self.input@.len(),
                ident_end(self.input@, self.position as nat) == target,
                name@ == self.input@.subrange(start as int, self.position as int),
            decreases self.input@.len() - self.position,
        {
            name.push(self.input[self.position]);
            assert(self.input@.subrange(start as int, self.position + 1) =~= self.input@.subrange(
                start as int,
                self.position as int,
            ).push(self.input@[self.position as int]));
            self.position = self.position + 1;
        }
        if self.position == start {
            Err(expected_identifier_error())
        } else {
            Ok(name)
        }
    }

    /// Reads `]`, closing the bracket of `seg`.
    fn close_bracket(&mut self, seg: PathSegment) -> (res: Result<PathSegment, JsonPathError>)
        requires
            old(self).position <= old(self).input@.len(),
        ensures
            final(self).input@ == old(self).input@,
            final(self).position <= final(self).input@.len(),
            match (res, closed_at(old(self).input@, old(self).position as nat, seg@)) {
                (Ok(r), Ok((m, e))) => r@ == m && final(self).position == e,
                (Err(e), Err(m)) => e@ == m,
                _ => false,
            },
    {
        if self.position < self.input.len() && self.input[self.position] == ']' {
            self.position = self.position + 1;
            Ok(seg)
        } else {
            Err(wanted_error(&self.input, self.position, quoted_char_string(']')))
        }
    }

    /// Reads an optional, possibly negative, integer.
    fn parse_int(&mut self) -> (res: Result<Option<isize>, JsonPathError>)
        requires
            old(self).position <= old(self).input@.len(),
        ensures
            final(self).input@ == old(self).input@,
            final(self).position <= final(self).input@.len(),
            match (res, int_at(old(self).input@, old(self).position as nat)) {
                (Ok(v), Ok((m, e))) => final(self).position == e && match (v, m) {
                    (Some(x), Some(y)) => x as int == y,
                    (None, None) => true,
                    _ => false,
                },
                (Err(e), Err(m)) => e@ == m,
                _ => false,
            },
    {
        let ghost s = self.input@;
        let start = self.position;
        let neg = self.position < self.input.len() && self.input[self.position] == '-';
        if neg {
            self.position = self.position + 1;
        }
        let d = self.position;
        let mut val: usize = 0;
        proof {
            lemma_digits_end_ge(s, d as nat);
        }
        while self.position < self.input.len() && char_is_digit(self.input[self.position])
            invariant
                self.input@ == s,
                s == old(self).input@,
                start == old(self).position,
                neg == (start < s.len() && s[start as int] == '-'),
                d == (if neg { start + 1 } else { start as int }),
                d <= self.position <= s.len(),
                val == digits_value(s, d as nat, self.position as nat),
                val <= isize::MAX,
                digits_end(s, self.position as nat) == digits_end(s, d as nat),
            decreases s.len() - self.position,
        {
            let c = self.input[self.position];
            let dig = ((c as u32) - ('0' as u32)) as usize;
            assert(dig == digit_value(c));
            assert(dig <= 9);
            let limit = (isize::MAX as usize - dig) / 10;
            if val > limit {
                proof {
                    assert(digits_value(s, d as nat, (self.position + 1) as nat) == val * 10 + dig);
                    assert(val * 10 + dig > isize::MAX) by (nonlinear_arith)
                        requires
                            val > limit,
                            limit == (isize::MAX as usize - dig) / 10,
                            dig <= 9,
                    ;
                    lemma_digits_end_ge(s, (self.position + 1) as nat);
                    lemma_digits_monotone(
                        s,
                        d as nat,
                        (self.position + 1) as nat,
                        digits_end(s, d as nat),
                    );
                }
                return Err(index_out_of_range_error());
            }
            assert(val * 10 + dig <= isize::MAX) by (nonlinear_arith)
                requires
                    val <= limit,
                    limit == (isize::MAX as usize - dig) / 10,
                    dig <= 9,
            ;
            val = val * 10 + dig;
            self.position = self.position + 1;
        }
        if self.position == d {
            if neg {
                return Err(wanted_error(&self.input, d, literal("digit")));
            } else {
                self.position = start;
                return Ok(None);
            }
        }
        if neg {
            Ok(Some(-(val as isize)))
        } else {
            Ok(Some(val as isize))
        }
    }

    /// Reads quoted names, the first of which starts at the current
    /// position, and the closing bracket after them.
    fn parse_names(&mut self) -> (res: Result<PathSegment, JsonPathError>)
        requires
            old(self).position < old(self).input@.len(),
            is_quote(old(self).input@[old(self).position as int]),
        ensures
            final(self).input@ == old(self).input@,
            final(self).position <= final(self).input@.len(),
            match (res, names_segment(old(self).input@, old(self).position as nat, Seq::empty())) {
                (Ok(r), Ok((m, e))) => r@ == m && final(self).position == e,
                (Err(e), Err(m)) => e@ == m,
                _ => false,
            },
    {
        let ghost s = self.input@;
        let ghost target = names_segment(s, self.position as nat, Seq::empty());
        let mut names: Vec<String> = Vec::new();
        assert(strings_model(names@) =~= Seq::<Seq<char>>::empty());
        loop
            invariant
                self.input@ == s,
                s == old(self).input@,
                self.position < s.len(),
                is_quote(s[self.position as int]),
                names_segment(s, self.position as nat, strings_model(names@)) == target,
                target == names_segment(s, old(self).position as nat, Seq::empty()),
                s.len() == self.input.len(),
            decreases s.len() - self.position,
        {
            let p = self.position;
            let q = self.input[p];
            let mut e = p + 1;
            proof {
                lemma_find_char_ge(s, (p + 1) as nat, q);
            }
            while e < self.input.len() && self.input[e] != q
                invariant
                    self.input@ == s,
                    p + 1 <= e <= s.len(),
                    find_char(s, e as nat, q) == find_char(s, (p + 1) as nat, q),
                decreases s.len() - e,
            {
                e = e + 1;
            }
            assert(find_char(s, e as nat, q) == e);
            if e >= self.input.len() {
                assert(names_segment(s, p as nat, strings_model(names@)) == Err::<(SegmentModel, nat), ErrorModel>(wanted_at(s, e as nat, quoted_char(q))));
                return Err(wanted_error(&self.input, e, quoted_char_string(q)));
            }
            let name = substring(&self.input, p + 1, e);
            let ghost before = strings_model(names@);
            names.push(name);
            assert(strings_model(names@) =~= before.push(s.subrange((p + 1) as int, e as int)));
            let r = e + 1;
            if r < self.input.len() && self.input[r] == ',' {
                self.position = r + 1;
                self.skip_whitespace();
                let t = self.position;
                proof {
                    lemma_ws_end_ge(s, (r + 1) as nat);
                }
                if !(t < self.input.len() && (self.input[t] == '\'' || self.input[t] == '"')) {
                    return Err(wanted_error(&self.input, t, literal("quote")));
                }
            } else {
                self.position = r;
                if names.len() == 1 {
                    let n = names.pop().unwrap();
                    return self.close_bracket(PathSegment::Child(n));
                } else {
                    return self.close_bracket(PathSegment::MultiProperty(names));
                }
            }
        }
    }

    /// Reads one segment; the current position is inside the query.
    fn parse_segment(&mut self) -> (res: Result<PathSegment, JsonPathError>)
        requires
            old(self).position < old(self).input@.len(),
        ensures
            final(self).input@ == old(self).input@,
            final(self).position <= final(self).input@.len(),
            match (res, segment_at(old(self).input@, old(self).position as nat)) {
                (Ok(r), Ok((m, e))) => r@ == m && final(self).position == e,
                (Err(e), Err(m)) => e@ == m,
                _ => false,
            },
    {
        let len = self.input.len();
        let p = self.position;
        let c = self.input[p];
        if c == '.' {
            self.position = p + 1;
            if self.position < self.input.len() && self.input[self.position] == '.' {
                self.position = self.position + 1;
                if self.position < self.input.len() && self.input[self.position] == '*' {
                    self.position = self.position + 1;
                    Ok(PathSegment::RecursiveDescent(None))
                } else {
                    match self.parse_identifier() {
                        Ok(n) => Ok(PathSegment::RecursiveDescent(Some(n))),
                        Err(e) => Err(e),
                    }
                }
            } else if self.position < self.input.len() && self.input[self.position] == '*' {
                self.position = self.position + 1;
                Ok(PathSegment::Wildcard)
            } else {
                match self.parse_identifier() {
                    Ok(n) => Ok(PathSegment::Child(n)),
                    Err(e) => Err(e),
                }
            }
        } else if c == '[' {
            self.position = p + 1;
            let q = self.position;
            if q < self.input.len() && self.input[q] == '*' {
                self.position = q + 1;
                self.close_bracket(PathSegment::Wildcard)
            } else if q < self.input.len() && (self.input[q] == '\'' || self.input[q] == '"') {
                self.parse_names()
            } else {
                let first = match self.parse_int() {
                    Ok(v) => v,
                    Err(e) => {
                        return Err(e);
                    },
                };
                let r = self.position;
                if r < self.input.len() && self.input[r] == ':' {
                    self.position = r + 1;
                    let second = match self.parse_int() {
                        Ok(v) => v,
                        Err(e) => {
                            return Err(e);
                        },
                    };
                    self.close_bracket(PathSegment::Slice(first, second))
                } else {
                    match first {
                        Some(i) => self.close_bracket(PathSegment::Index(i)),
                        None => Err(wanted_error(&self.input, r, literal("index"))),
                    }
                }
            }
        } else {
            Err(
                JsonPathError::UnexpectedToken {
                    position: p,
                    found: char_string(c),
                    expected: literal("'.' or '['"),
                },
            )
        }
    }

    /// Parses the whole query: `$` after optional white space, then
    /// segments to the end.
    fn parse_path(&mut self) -> (res: Result<JsonPath, JsonPathError>)
        requires
            old(self).position == 0,
        ensures
            match (res, parse_query(old(self).input@)) {
                (Ok(p), Ok(segs)) => segments_model(p.segments@) == segs,
                (Err(e), Err(m)) => e@ == m,
                _ => false,
            },
    {
        let ghost s = self.input@;
        match self.expect('$') {
            Err(e) => {
                return Err(e);
            },
            Ok(()) => {},
        }
        let mut segments: Vec<PathSegment> = Vec::new();
        segments.push(PathSegment::Root);
        assert(segments_model(segments@) =~= seq![SegmentModel::Root]);
        while !self.is_eof()
            invariant
                self.input@ == s,
                s == old(self).input@,
                self.position <= s.len(),
                parse_query(s) == match segments_from(s, self.position as nat) {
                    Ok(r) => Ok(segments_model(segments@) + r),
                    Err(e) => Err::<Seq<SegmentModel>, ErrorModel>(e),
                },
            decreases s.len() - self.position,
        {
            let p = self.position;
            let seg = match self.parse_segment() {
                Ok(seg) => seg,
                Err(e) => {
                    return Err(e);
                },
            };
            if self.position <= p {
                return Err(expected_identifier_error());
            }
            assert(self.position <= s.len());
            let ghost done = segments_model(segments@);
            let ghost m = seg@;
            segments.push(seg);
            proof {
                assert(segments_model(segments@) =~= done.push(m));
                match segments_from(s, self.position as nat) {
                    Ok(r) => {
                        assert(done + (seq![m] + r) =~= done.push(m) + r);
                    },
                    Err(e) => {},
                }
            }
        }
        assert(segments_model(segments@) + Seq::<SegmentModel>::empty() =~= segments_model(segments@));
        Ok(JsonPath::new(segments))
    }
}

/// The string of the characters `chars[from..to]`.
fn substring(chars: &Vec<char>, from: usize, to: usize) -> (res: String)
    requires
        from <= to <= chars@.len(),
    ensures
        res@ == chars@.subrange(from as int, to as int),
{
    let mut s = String::new();
    let mut i = from;
    while i < to
        invariant
            from <= i <= to,
            to <= chars@.len(),
            s@ == chars@.subrange(from as int, i as int),
        decreases to - i,
    {
        s.push(chars[i]);
        assert(chars@.subrange(from as int, i + 1) =~= chars@.subrange(from as int, i as int).push(chars@[i as int]));
        i = i + 1;
    }
    s
}

pub proof fn lemma_ws_end_ge(s: Seq<char>, p: nat)
    ensures
        ws_end(s, p) >= p,
    decreases s.len() - p,
{
    if p < s.len() && is_whitespace(s[p as int]) {
        lemma_ws_end_ge(s, p + 1);
    }
}

proof fn lemma_digits_end_ge(s: Seq<char>, p: nat)
    ensures
        digits_end(s, p) >= p,
    decreases s.len() - p,
{
    if p < s.len() && is_digit(s[p as int]) {
        lemma_digits_end_ge(s, p + 1);
    }
}

proof fn lemma_find_char_ge(s: Seq<char>, p: nat, q: char)
    ensures
        find_char(s, p, q) >= p,
    decreases s.len() - p,
{
    if p < s.len() && s[p as int] != q {
        lemma_find_char_ge(s, p + 1, q);
    }
}

} // verus!
