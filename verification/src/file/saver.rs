//! JSON serialization of documents: pretty printing with indentation,
//! compact single-line containers of scalars, and string escaping.
use vstd::prelude::*;
use crate::document::node::{JsonNode, JsonValue, NodeModel, ValueModel, entries_model, nodes_model};
use crate::document::tree::JsonTree;
use crate::text::push_str;

verus! {

/// The lower-case hexadecimal digit for `d < 16`.
pub open spec fn hex_digit(d: nat) -> char {
    if d < 10 {
        crate::text::digit_char(d)
    } else if d == 10 {
        'a'
    } else if d == 11 {
        'b'
    } else if d == 12 {
        'c'
    } else if d == 13 {
        'd'
    } else if d == 14 {
        'e'
    } else {
        'f'
    }
}

/// Whether `c` is a control character (`char::is_control`: the C0 and C1 ranges).
pub open spec fn is_control(c: char) -> bool {
    (c as u32) <= 0x1f || (0x7f <= (c as u32) && (c as u32) <= 0x9f)
}

/// How one character is written inside a JSON string literal.
pub open spec fn escape_char(c: char) -> Seq<char> {
    if c == '\\' {
        seq!['\\', '\\']
    } else if c == '"' {
        seq!['\\', '"']
    } else if c == '\n' {
        seq!['\\', 'n']
    } else if c == '\r' {
        seq!['\\', 'r']
    } else if c == '\t' {
        seq!['\\', 't']
    } else if c == '\u{8}' {
        seq!['\\', 'b']
    } else if c == '\u{c}' {
        seq!['\\', 'f']
    } else if is_control(c) {
        seq![
            '\\',
            'u',
            '0',
            '0',
            hex_digit((c as u32 as nat) / 16),
            hex_digit((c as u32 as nat) % 16),
        ]
    } else {
        seq![c]
    }
}

/// The escaped form of `s`, character by character.
pub open spec fn escape(s: Seq<char>) -> Seq<char>
    decreases s.len(),
{
    if s.len() == 0 {
        Seq::empty()
    } else {
        escape(s.drop_last()) + escape_char(s.last())
    }
}

/// No character of one escaped character is a control character, and a
/// double quote in it comes right after a backslash.
proof fn lemma_escape_char_clean(c: char)
    ensures
        forall|i: int| 0 <= i < escape_char(c).len() ==> !is_control(#[trigger] escape_char(c)[i]),
        forall|i: int| 0 <= i < escape_char(c).len() && #[trigger] escape_char(c)[i] == '"'
            ==> i > 0 && escape_char(c)[i - 1] == '\\',
        escape_char(c).len() > 0 && (escape_char(c).len() > 1 ==> escape_char(c)[0] == '\\'),
{
    if is_control(c) && c != '\n' && c != '\r' && c != '\t' && c != '\u{8}' && c != '\u{c}' {
        let v = c as u32 as nat;
        assert(v / 16 < 16) by (nonlinear_arith)
            requires v <= 0x9f;
        assert(v % 16 < 16) by (nonlinear_arith);
        let h1 = hex_digit(v / 16);
        let h2 = hex_digit(v % 16);
        assert(!is_control(h1) && h1 != '"');
        assert(!is_control(h2) && h2 != '"');
    }
}

/// An escaped string holds no control character, and every double quote
/// in it is preceded by a backslash: it can stand between quotes as a JSON
/// string literal.
pub proof fn law_escaped_text_is_clean(s: Seq<char>)
    ensures
        forall|i: int| 0 <= i < escape(s).len() ==> !is_control(#[trigger] escape(s)[i]),
        forall|i: int| 0 <= i < escape(s).len() && #[trigger] escape(s)[i] == '"'
            ==> i > 0 && escape(s)[i - 1] == '\\',
    decreases s.len(),
{
    if s.len() > 0 {
        let a = escape(s.drop_last());
        let b = escape_char(s.last());
        law_escaped_text_is_clean(s.drop_last());
        lemma_escape_char_clean(s.last());
        assert(escape(s) == a + b);
        assert forall|i: int| 0 <= i < escape(s).len() implies !is_control(#[trigger] escape(s)[i]) by {
            if i < a.len() {
                assert(escape(s)[i] == a[i]);
            } else {
                assert(escape(s)[i] == b[i - a.len()]);
            }
        }
        assert forall|i: int| 0 <= i < escape(s).len() && #[trigger] escape(s)[i] == '"'
            implies i > 0 && escape(s)[i - 1] == '\\' by {
            if i < a.len() {
                assert(escape(s)[i] == a[i]);
                assert(escape(s)[i - 1] == a[i - 1]);
            } else {
                let j = i - a.len();
                assert(escape(s)[i] == b[j]);
                assert(j > 0);
                assert(escape(s)[i - 1] == b[j - 1]);
            }
        }
    }
}

/// Text with no backslash, double quote or control character is written
/// as it is.
pub proof fn law_plain_text_escapes_to_itself(s: Seq<char>)
    requires
        forall|i: int| 0 <= i < s.len() ==> #[trigger] s[i] != '\\' && s[i] != '"' && !is_control(s[i]),
    ensures
        escape(s) == s,
    decreases s.len(),
{
    if s.len() > 0 {
        let c = s.last();
        assert(s[s.len() - 1] == c);
        assert(c != '\n' && c != '\r' && c != '\t' && c != '\u{8}' && c != '\u{c}');
        law_plain_text_escapes_to_itself(s.drop_last());
        assert(escape_char(c) == seq![c]);
        assert(s.drop_last() + seq![c] =~= s);
    }
}

/// Whether `c` is a hexadecimal digit.
pub open spec fn is_hex(c: char) -> bool {
    (48 <= (c as u32) && (c as u32) <= 57) || (97 <= (c as u32) && (c as u32) <= 102)
        || (65 <= (c as u32) && (c as u32) <= 70)
}

/// The value of the hexadecimal digit `c` (0 for any other character).
pub open spec fn hex_value(c: char) -> nat {
    if 48 <= (c as u32) && (c as u32) <= 57 {
        ((c as u32) - 48) as nat
    } else if 97 <= (c as u32) && (c as u32) <= 102 {
        ((c as u32) - 87) as nat
    } else if 65 <= (c as u32) && (c as u32) <= 70 {
        ((c as u32) - 55) as nat
    } else {
        0
    }
}

/// The character that the two-character escape made of a backslash and
/// `e` stands for in a JSON string literal.
pub open spec fn short_escape(e: char) -> Option<char> {
    if e == '"' {
        Some('"')
    } else if e == '\\' {
        Some('\\')
    } else if e == '/' {
        Some('/')
    } else if e == 'b' {
        Some('\u{8}')
    } else if e == 'f' {
        Some('\u{c}')
    } else if e == 'n' {
        Some('\n')
    } else if e == 'r' {
        Some('\r')
    } else if e == 't' {
        Some('\t')
    } else {
        None
    }
}

/// Whether `t`, standing between the quotes of a JSON string literal, is
/// well formed there and decodes to the text `s`: each character but a
/// backslash, a double quote or one below U+0020 stands for itself, a
/// backslash and a letter for the character `short_escape` gives, and a
/// backslash, `u` and four hexadecimal digits for the character with that
/// number.
pub open spec fn decodes_to(t: Seq<char>, s: Seq<char>) -> bool
    decreases t.len(),
{
    if t.len() == 0 {
        s.len() == 0
    } else if s.len() == 0 {
        false
    } else if t[0] == '\\' {
        if t.len() >= 6 && t[1] == 'u' {
            &&& is_hex(t[2]) && is_hex(t[3]) && is_hex(t[4]) && is_hex(t[5])
            &&& (s[0] as u32) == 4096 * hex_value(t[2]) + 256 * hex_value(t[3]) + 16 * hex_value(t[4]) + hex_value(t[5])
            &&& decodes_to(t.subrange(6, t.len() as int), s.drop_first())
        } else {
            t.len() >= 2 && short_escape(t[1]) == Some(s[0]) && decodes_to(t.subrange(2, t.len() as int), s.drop_first())
        }
    } else {
        t[0] != '"' && (t[0] as u32) >= 0x20 && s[0] == t[0] && decodes_to(t.drop_first(), s.drop_first())
    }
}

/// The escaped form of a text starts with that of its first character.
proof fn lemma_escape_front(s: Seq<char>)
    requires
        s.len() > 0,
    ensures
        escape(s) == escape_char(s[0]) + escape(s.drop_first()),
    decreases s.len(),
{
    if s.len() == 1 {
        assert(s.drop_last() =~= Seq::<char>::empty());
        assert(s.drop_first() =~= Seq::<char>::empty());
        assert(escape_char(s[0]) + Seq::<char>::empty() =~= escape_char(s[0]));
    } else {
        lemma_escape_front(s.drop_last());
        assert(s.drop_last().drop_first() =~= s.drop_first().drop_last());
        assert(s.drop_first().last() == s.last());
        assert(s.drop_last()[0] == s[0]);
        assert(escape(s.drop_first()) == escape(s.drop_first().drop_last()) + escape_char(s.last()));
        assert(escape(s) =~= escape_char(s[0]) + escape(s.drop_first()));
    }
}

/// A hexadecimal digit written by `hex_digit` reads back as its value.
proof fn lemma_hex_digit_value(d: nat)
    requires
        d < 16,
    ensures
        is_hex(hex_digit(d)),
        hex_value(hex_digit(d)) == d,
{
}

/// Escaping loses nothing: the escaped form of any text, put between
/// double quotes, is a well-formed JSON string literal that decodes back
/// to exactly that text.
pub proof fn law_escape_round_trip(s: Seq<char>)
    ensures
        decodes_to(escape(s), s),
    decreases s.len(),
{
    if s.len() > 0 {
        let c = s[0];
        let rest = s.drop_first();
        let e = escape_char(c);
        lemma_escape_front(s);
        law_escape_round_trip(rest);
        let t = escape(s);
        assert(t == e + escape(rest));
        if c == '\\' || c == '"' || c == '\n' || c == '\r' || c == '\t' || c == '\u{8}' || c == '\u{c}' {
            assert(t.subrange(2, t.len() as int) =~= escape(rest));
            assert(t[0] == '\\' && t[1] != 'u');
            assert(short_escape(t[1]) == Some(c));
        } else if is_control(c) {
            let v = c as u32 as nat;
            assert(v / 16 < 16) by (nonlinear_arith)
                requires v <= 0x9f;
            assert(v % 16 < 16) by (nonlinear_arith);
            assert(v == 16 * (v / 16) + v % 16) by (nonlinear_arith);
            lemma_hex_digit_value(v / 16);
            lemma_hex_digit_value(v % 16);
            lemma_hex_digit_value(0);
            assert(t.subrange(6, t.len() as int) =~= escape(rest));
            assert(t[0] == '\\' && t[1] == 'u' && t[2] == '0' && t[3] == '0');
        } else {
            assert(t.drop_first() =~= escape(rest));
        }
    }
}

/// `s` as a JSON string literal.
pub open spec fn quoted(s: Seq<char>) -> Seq<char> {
    seq!['"'] + escape(s) + seq!['"']
}

/// The number of bytes in the UTF-8 encoding of `c`.
pub open spec fn utf8_width(c: char) -> nat {
    if (c as u32) < 0x80 {
        1
    } else if (c as u32) < 0x800 {
        2
    } else if (c as u32) < 0x10000 {
        3
    } else {
        4
    }
}

/// The number of bytes in the UTF-8 encoding of `s`.
pub open spec fn byte_len(s: Seq<char>) -> nat
    decreases s.len(),
{
    if s.len() == 0 {
        0
    } else {
        byte_len(s.drop_last()) + utf8_width(s.last())
    }
}

/// `n` spaces.
pub open spec fn spaces(n: nat) -> Seq<char> {
    Seq::new(n, |i: int| ' ')
}

/// The text of a scalar value.
pub open spec fn scalar_text(v: ValueModel) -> Seq<char> {
    match v {
        ValueModel::Str(s) => quoted(s),
        ValueModel::Number(t) => t,
        ValueModel::Boolean(b) => if b {
            seq!['t', 'r', 'u', 'e']
        } else {
            seq!['f', 'a', 'l', 's', 'e']
        },
        _ => seq!['n', 'u', 'l', 'l'],
    }
}

/// Whether no entry of an object holds a container.
pub open spec fn entries_flat(es: Seq<(Seq<char>, NodeModel)>) -> bool {
    forall|i: int| 0 <= i < es.len() ==> !(#[trigger] es[i]).1.value.is_container()
}

/// Whether no element of an array holds a container.
pub open spec fn elements_flat(a: Seq<NodeModel>) -> bool {
    forall|i: int| 0 <= i < a.len() ==> !(#[trigger] a[i]).value.is_container()
}

/// The first `k` entries of an object on one line, separated by `", "`.
pub open spec fn compact_entries(es: Seq<(Seq<char>, NodeModel)>, k: nat) -> Seq<char>
    decreases k,
{
    if k == 0 {
        Seq::empty()
    } else {
        let item = quoted(es[k - 1].0) + seq![':', ' '] + scalar_text(es[k - 1].1.value);
        if k == 1 {
            item
        } else {
            compact_entries(es, (k - 1) as nat) + seq![',', ' '] + item
        }
    }
}

/// The first `k` elements of an array on one line, separated by `", "`.
pub open spec fn compact_elements(a: Seq<NodeModel>, k: nat) -> Seq<char>
    decreases k,
{
    if k == 0 {
        Seq::empty()
    } else {
        let item = scalar_text(a[k - 1].value);
        if k == 1 {
            item
        } else {
            compact_elements(a, (k - 1) as nat) + seq![',', ' '] + item
        }
    }
}

/// An object on one line: `{"a": 1, "b": true}`.
pub open spec fn compact_object_text(es: Seq<(Seq<char>, NodeModel)>) -> Seq<char> {
    seq!['{'] + compact_entries(es, es.len()) + seq!['}']
}

/// An array on one line: `[1, 2, 3]`.
pub open spec fn compact_array_text(a: Seq<NodeModel>) -> Seq<char> {
    seq!['['] + compact_elements(a, a.len()) + seq![']']
}

/// The longest line, in bytes, that a container is written on when all
/// its members are scalars.
pub const COMPACT_WIDTH: usize = 80;

/// The depth below `depth` (it stays put at the largest `usize`).
pub open spec fn next_depth(depth: nat) -> nat {
    if depth < usize::MAX {
        depth + 1
    } else {
        depth
    }
}

/// The written form of a value at nesting depth `depth`, indented by
/// `indent` spaces per level. Empty containers are `{}` and `[]`;
/// containers of scalars whose one-line form takes at most
/// `COMPACT_WIDTH` bytes are written on one line; other containers put one
/// member per line, each indented one level deeper, and the closing
/// bracket at the container's own level.
#[verifier::opaque]
pub open spec fn value_text(v: ValueModel, indent: nat, depth: nat) -> Seq<char>
    decreases v, 3nat,
{
    match v {
        ValueModel::Object(es) => if es.len() == 0 {
            seq!['{', '}']
        } else if entries_flat(es) && byte_len(compact_object_text(es)) <= COMPACT_WIDTH {
            compact_object_text(es)
        } else {
            seq!['{', '\n'] + members_text(v, indent, depth)
                + spaces(indent * depth) + seq!['}']
        },
        ValueModel::Array(a) => if a.len() == 0 {
            seq!['[', ']']
        } else if elements_flat(a) && byte_len(compact_array_text(a)) <= COMPACT_WIDTH {
            compact_array_text(a)
        } else {
            seq!['[', '\n'] + members_text(v, indent, depth)
                + spaces(indent * depth) + seq![']']
        },
        ValueModel::JsonlRoot(a) => if a.len() == 0 {
            seq!['[', ']']
        } else if elements_flat(a) && byte_len(compact_array_text(a)) <= COMPACT_WIDTH {
            compact_array_text(a)
        } else {
            seq!['[', '\n'] + members_text(v, indent, depth)
                + spaces(indent * depth) + seq![']']
        },
        _ => scalar_text(v),
    }
}

/// The member lines of a multi-line container, one after the other.
pub open spec fn members_text(v: ValueModel, indent: nat, depth: nat) -> Seq<char>
    decreases v, 2nat,
{
    member_lines(v, indent, depth, v.children().len()).flatten()
}

/// The lines of the first `k` members of a multi-line container.
pub open spec fn member_lines(v: ValueModel, indent: nat, depth: nat, k: nat) -> Seq<Seq<char>>
    decreases v, 1nat,
{
    Seq::new(k, |j: int| member_line(v, j, indent, depth))
}

/// The line for the `i`th member of a multi-line container: indentation
/// one level deeper, the key for an object entry, the member's text, a
/// comma unless it is the last member, and a line break.
pub open spec fn member_line(v: ValueModel, i: int, indent: nat, depth: nat) -> Seq<char>
    decreases v, 0nat,
{
    let inner = next_depth(depth);
    match v {
        ValueModel::Object(es) => if 0 <= i < es.len() {
            proof {
                assert(decreases_to!(v => es));
                assert(decreases_to!(es => es[i]));
            }
            spaces(indent * inner) + quoted(es[i].0) + seq![':', ' '] + value_text(
                es[i].1.value,
                indent,
                inner,
            ) + (if i < es.len() - 1 {
                seq![',', '\n']
            } else {
                seq!['\n']
            })
        } else {
            Seq::empty()
        },
        ValueModel::Array(a) => if 0 <= i < a.len() {
            proof {
                assert(decreases_to!(v => a));
                assert(decreases_to!(a => a[i]));
            }
            spaces(indent * inner) + value_text(a[i].value, indent, inner) + (if i < a.len() - 1 {
                seq![',', '\n']
            } else {
                seq!['\n']
            })
        } else {
            Seq::empty()
        },
        ValueModel::JsonlRoot(a) => if 0 <= i < a.len() {
            proof {
                assert(decreases_to!(v => a));
                assert(decreases_to!(a => a[i]));
            }
            spaces(indent * inner) + value_text(a[i].value, indent, inner) + (if i < a.len() - 1 {
                seq![',', '\n']
            } else {
                seq!['\n']
            })
        } else {
            Seq::empty()
        },
        _ => Seq::empty(),
    }
}

fn hex_char(d: u32) -> (c: char)
    requires
        d < 16,
    ensures
        c == hex_digit(d as nat),
{
    if d == 0 { '0' }
    else if d == 1 { '1' }
    else if d == 2 { '2' }
    else if d == 3 { '3' }
    else if d == 4 { '4' }
    else if d == 5 { '5' }
    else if d == 6 { '6' }
    else if d == 7 { '7' }
    else if d == 8 { '8' }
    else if d == 9 { '9' }
    else if d == 10 { 'a' }
    else if d == 11 { 'b' }
    else if d == 12 { 'c' }
    else if d == 13 { 'd' }
    else if d == 14 { 'e' }
    else { 'f' }
}

/// Appends the escaped form of one character.
fn push_escaped_char(out: &mut String, c: char)
    ensures
        final(out)@ == old(out)@ + escape_char(c),
{
    let ghost start = out@;
    if c == '\\' {
        out.push('\\');
        out.push('\\');
    } else if c == '"' {
        out.push('\\');
        out.push('"');
    } else if c == '\n' {
        out.push('\\');
        out.push('n');
    } else if c == '\r' {
        out.push('\\');
        out.push('r');
    } else if c == '\t' {
        out.push('\\');
        out.push('t');
    } else if c == '\u{8}' {
        out.push('\\');
        out.push('b');
    } else if c == '\u{c}' {
        out.push('\\');
        out.push('f');
    } else if c <= '\u{1f}' || ('\u{7f}' <= c && c <= '\u{9f}') {
        let code = c as u32;
        assert(code < 0x100);
        out.push('\\');
        out.push('u');
        out.push('0');
        out.push('0');
        out.push(hex_char(code / 16));
        out.push(hex_char(code % 16));
    } else {
        out.push(c);
    }
    assert(out@ =~= start + escape_char(c));
}

/// Appends the escaped form of `s`.
pub fn push_escaped(out: &mut String, s: &str)
    ensures
        final(out)@ == old(out)@ + escape(s@),
{
    let n = s.unicode_len();
    let ghost start = out@;
    for i in 0..n
        invariant
            n == s@.len(),
            out@ == start + escape(s@.subrange(0, i as int)),
    {
        let c = s.get_char(i);
        push_escaped_char(out, c);
        let ghost pre = s@.subrange(0, i + 1);
        assert(pre.drop_last() =~= s@.subrange(0, i as int));
        assert(pre.last() == c);
        assert(out@ =~= start + escape(pre));
    }
    assert(s@.subrange(0, n as int) =~= s@);
}

/// Escapes `s` for use inside a JSON string literal: backslash, double
/// quote, line feed, carriage return, tab, backspace and form feed get
/// their two-character escapes; other control characters are written as
/// `\u00XX`; everything else is kept.
pub fn escape_json_string(s: &str) -> (res: String)
    ensures
        res@ == escape(s@),
{
    let mut out = String::new();
    push_escaped(&mut out, s);
    assert(Seq::<char>::empty() + escape(s@) =~= escape(s@));
    out
}

fn push_quoted(out: &mut String, s: &str)
    ensures
        final(out)@ == old(out)@ + quoted(s@),
{
    let ghost start = out@;
    out.push('"');
    push_escaped(out, s);
    out.push('"');
    assert(out@ =~= start + quoted(s@));
}

fn push_scalar(out: &mut String, value: &JsonValue)
    requires
        !value@.is_container(),
    ensures
        final(out)@ == old(out)@ + scalar_text(value@),
{
    let ghost start = out@;
    match value {
        JsonValue::String(s) => push_quoted(out, s.as_str()),
        JsonValue::Number(t) => push_str(out, t.as_str()),
        JsonValue::Boolean(b) => {
            if *b {
                out.push('t');
                out.push('r');
                out.push('u');
                out.push('e');
            } else {
                out.push('f');
                out.push('a');
                out.push('l');
                out.push('s');
                out.push('e');
            }
        },
        _ => {
            out.push('n');
            out.push('u');
            out.push('l');
            out.push('l');
        },
    }
    assert(out@ =~= start + scalar_text(value@));
}

/// The text of a scalar value: a quoted, escaped string; the number's
/// decimal text; `true`, `false` or `null`.
pub fn serialize_scalar(value: &JsonValue) -> (res: String)
    requires
        !value@.is_container(),
    ensures
        res@ == scalar_text(value@),
{
    let mut out = String::new();
    push_scalar(&mut out, value);
    assert(Seq::<char>::empty() + scalar_text(value@) =~= scalar_text(value@));
    out
}

/// Whether every entry of an object holds a scalar.
pub fn should_use_compact_format_object(entries: &[(String, JsonNode)]) -> (res: bool)
    ensures
        res == entries_flat(crate::document::node::entries_model(entries@)),
{
    let n = entries.len();
    for i in 0..n
        invariant
            n == entries@.len(),
            forall|j: int| 0 <= j < i ==> !(#[trigger] entries@[j]).1@.value.is_container(),
    {
        if entries[i].1.value().is_container() {
            assert(crate::document::node::entries_model(entries@)[i as int].1 == entries@[i as int].1@);
            return false;
        }
    }
    assert forall|j: int| 0 <= j < n implies !(#[trigger] crate::document::node::entries_model(entries@)[j]).1.value.is_container() by {
        assert(crate::document::node::entries_model(entries@)[j].1 == entries@[j].1@);
    }
    true
}

/// Whether every element of an array holds a scalar.
pub fn should_use_compact_format_array(elements: &[JsonNode]) -> (res: bool)
    ensures
        res == elements_flat(crate::document::node::nodes_model(elements@)),
{
    let n = elements.len();
    for i in 0..n
        invariant
            n == elements@.len(),
            forall|j: int| 0 <= j < i ==> !(#[trigger] elements@[j])@.value.is_container(),
    {
        if elements[i].value().is_container() {
            assert(crate::document::node::nodes_model(elements@)[i as int] == elements@[i as int]@);
            return false;
        }
    }
    assert forall|j: int| 0 <= j < n implies !(#[trigger] crate::document::node::nodes_model(elements@)[j]).value.is_container() by {
        assert(crate::document::node::nodes_model(elements@)[j] == elements@[j]@);
    }
    true
}

/// An object whose entries all hold scalars, on one line:
/// `{"key": value, ...}`.
pub fn serialize_object_compact(entries: &[(String, JsonNode)]) -> (res: String)
    requires
        entries_flat(entries_model(entries@)),
    ensures
        res@ == compact_object_text(entries_model(entries@)),
{
    let ghost es = entries_model(entries@);
    let mut out = String::new();
    out.push('{');
    let n = entries.len();
    for i in 0..n
        invariant
            n == entries@.len(),
            es == entries_model(entries@),
            entries_flat(es),
            out@ == seq!['{'] + compact_entries(es, i as nat),
    {
        let ghost before = out@;
        assert(es[i as int] == (entries@[i as int].0@, entries@[i as int].1@));
        assert(!es[i as int].1.value.is_container());
        if i > 0 {
            out.push(',');
            out.push(' ');
        }
        push_quoted(&mut out, entries[i].0.as_str());
        out.push(':');
        out.push(' ');
        push_scalar(&mut out, entries[i].1.value());
        assert(out@ =~= seq!['{'] + compact_entries(es, (i + 1) as nat));
    }
    out.push('}');
    assert(out@ =~= compact_object_text(es));
    out
}

/// An array whose elements are all scalars, on one line: `[a, b, ...]`.
pub fn serialize_array_compact(elements: &[JsonNode]) -> (res: String)
    requires
        elements_flat(nodes_model(elements@)),
    ensures
        res@ == compact_array_text(nodes_model(elements@)),
{
    let ghost a = nodes_model(elements@);
    let mut out = String::new();
    out.push('[');
    let n = elements.len();
    for i in 0..n
        invariant
            n == elements@.len(),
            a == nodes_model(elements@),
            elements_flat(a),
            out@ == seq!['['] + compact_elements(a, i as nat),
    {
        assert(a[i as int] == elements@[i as int]@);
        assert(!a[i as int].value.is_container());
        if i > 0 {
            out.push(',');
            out.push(' ');
        }
        push_scalar(&mut out, elements[i].value());
        assert(out@ =~= seq!['['] + compact_elements(a, (i + 1) as nat));
    }
    out.push(']');
    assert(out@ =~= compact_array_text(a));
    out
}

fn char_width(c: char) -> (w: usize)
    ensures
        w == utf8_width(c),
{
    if '\u{80}' > c {
        1
    } else if '\u{800}' > c {
        2
    } else if '\u{10000}' > c {
        3
    } else {
        4
    }
}

/// Whether the UTF-8 encoding of `s` takes at most `limit` bytes.
pub fn fits_in_bytes(s: &str, limit: usize) -> (res: bool)
    ensures
        res == (byte_len(s@) <= limit),
{
    let n = s.unicode_len();
    let mut total: usize = 0;
    for i in 0..n
        invariant
            n == s@.len(),
            total == byte_len(s@.subrange(0, i as int)),
            total <= limit,
    {
        let w = char_width(s.get_char(i));
        let ghost pre = s@.subrange(0, i + 1);
        assert(pre.drop_last() =~= s@.subrange(0, i as int));
        if w > limit || total > limit - w {
            proof {
                lemma_byte_len_prefix(s@, i + 1);
            }
            return false;
        }
        total = total + w;
    }
    assert(s@.subrange(0, n as int) =~= s@);
    true
}

/// The number of bytes in the UTF-8 encoding of `s`, when it is at most
/// `limit`.
pub fn byte_count_upto(s: &str, limit: usize) -> (res: Option<usize>)
    ensures
        match res {
            Some(n) => n == byte_len(s@) && n <= limit,
            None => byte_len(s@) > limit,
        },
{
    let n = s.unicode_len();
    let mut total: usize = 0;
    for i in 0..n
        invariant
            n == s@.len(),
            total == byte_len(s@.subrange(0, i as int)),
            total <= limit,
    {
        let w = char_width(s.get_char(i));
        let ghost pre = s@.subrange(0, i + 1);
        assert(pre.drop_last() =~= s@.subrange(0, i as int));
        if w > limit || total > limit - w {
            proof {
                lemma_byte_len_prefix(s@, i + 1);
            }
            return None;
        }
        total = total + w;
    }
    assert(s@.subrange(0, n as int) =~= s@);
    Some(total)
}

/// The encoding of a concatenation is the two encodings one after the other.
pub proof fn lemma_byte_len_concat(a: Seq<char>, b: Seq<char>)
    ensures
        byte_len(a + b) == byte_len(a) + byte_len(b),
    decreases b.len(),
{
    if b.len() == 0 {
        assert(a + b =~= a);
    } else {
        lemma_byte_len_concat(a, b.drop_last());
        assert((a + b).drop_last() =~= a + b.drop_last());
        assert((a + b).last() == b.last());
    }
}

/// The encoding of a sequence is at least as long as that of any prefix.
pub proof fn lemma_byte_len_prefix(s: Seq<char>, k: int)
    requires
        0 <= k <= s.len(),
    ensures
        byte_len(s.subrange(0, k)) <= byte_len(s),
    decreases s.len() - k,
{
    if k < s.len() {
        lemma_byte_len_prefix(s, k + 1);
        assert(s.subrange(0, k + 1).drop_last() =~= s.subrange(0, k));
    } else {
        assert(s.subrange(0, k) =~= s);
    }
}

/// Appends `indent * depth` spaces.
pub fn push_indent(out: &mut String, indent: usize, depth: usize)
    ensures
        final(out)@ == old(out)@ + spaces(indent as nat * depth as nat),
{
    let ghost start = out@;
    let mut k: usize = 0;
    while k < depth
        invariant
            k <= depth,
            out@ == start + spaces(indent as nat * k as nat),
        decreases depth - k,
    {
        let mut j: usize = 0;
        while j < indent
            invariant
                j <= indent,
                k < depth,
                out@ == start + spaces(indent as nat * k as nat + j as nat),
            decreases indent - j,
        {
            out.push(' ');
            assert(spaces(indent as nat * k as nat + j as nat).push(' ') =~= spaces(
                indent as nat * k as nat + j as nat + 1,
            ));
            j = j + 1;
        }
        assert(indent as nat * k as nat + indent as nat == indent as nat * (k as nat + 1)) by (nonlinear_arith);
        k = k + 1;
    }
    assert(start + spaces(0) =~= start);
}


proof fn lemma_member_line_object(es: Seq<(Seq<char>, NodeModel)>, i: int, indent: nat, depth: nat)
    requires
        0 <= i < es.len(),
    ensures
        member_line(ValueModel::Object(es), i, indent, depth) == spaces(indent * next_depth(depth)) + quoted(es[i].0) + seq![':', ' '] + value_text(es[i].1.value, indent, next_depth(depth)) + (if i < es.len() - 1 { seq![',', '\n'] } else { seq!['\n'] }),
{
    reveal(value_text);
}

proof fn lemma_member_line_element(v: ValueModel, i: int, indent: nat, depth: nat)
    requires
        v is Array || v is JsonlRoot,
        0 <= i < v.children().len(),
    ensures
        member_line(v, i, indent, depth) == spaces(indent * next_depth(depth)) + value_text(v.children()[i].value, indent, next_depth(depth)) + (if i < v.children().len() - 1 { seq![',', '\n'] } else { seq!['\n'] }),
{
    reveal(value_text);
}

proof fn lemma_member_lines_push(v: ValueModel, indent: nat, depth: nat, k: nat)
    ensures
        member_lines(v, indent, depth, k + 1) == member_lines(v, indent, depth, k).push(member_line(v, k as int, indent, depth)),
        member_lines(v, indent, depth, 0).flatten() == Seq::<char>::empty(),
        members_text(v, indent, depth) == member_lines(v, indent, depth, v.children().len()).flatten(),
{
    reveal(value_text);
    assert(member_lines(v, indent, depth, k + 1) =~= member_lines(v, indent, depth, k).push(member_line(v, k as int, indent, depth)));
    assert(member_lines(v, indent, depth, 0) =~= Seq::<Seq<char>>::empty());
}

/// Appends the member lines of the object `value`.
#[verifier::loop_isolation(false)]
#[verifier::rlimit(100)]
fn push_entry_lines(out: &mut String, value: &JsonValue, indent: usize, depth: usize)
    requires
        value@ is Object,
    ensures
        final(out)@ == old(out)@ + members_text(value@, indent as nat, depth as nat),
    decreases value, 0nat,
{
    let ghost start = out@;
    let ghost v = value@;
    let inner = if depth < usize::MAX {
        depth + 1
    } else {
        depth
    };
    if let JsonValue::Object(entries) = value {
        let ghost es = entries_model(entries@);
        proof {
            crate::document::node::lemma_object_view(*entries);
        }
        let n = entries.len();
        proof {
            lemma_member_lines_push(v, indent as nat, depth as nat, 0);
            assert(start + Seq::<char>::empty() =~= start);
        }
        for i in 0..n
            invariant
                n == entries@.len(),
                v == ValueModel::Object(es),
                es == entries_model(entries@),
                inner as nat == next_depth(depth as nat),
                out@ == start + member_lines(v, indent as nat, depth as nat, i as nat).flatten(),
        {
            let ghost before = out@;
            proof {
                assert(decreases_to!(entries => entries[i as int]));
                crate::document::node::lemma_node_value(entries@[i as int].1);
            }
            push_indent(out, indent, inner);
            push_quoted(out, entries[i].0.as_str());
            out.push(':');
            out.push(' ');
            push_value(out, &entries[i].1.value, indent, inner);
            if i < n - 1 {
                out.push(',');
            }
            out.push('\n');
            proof {
                assert(es[i as int] == (entries@[i as int].0@, entries@[i as int].1@));
                let line = member_line(v, i as int, indent as nat, depth as nat);
                let lines = member_lines(v, indent as nat, depth as nat, i as nat);
                lemma_member_line_object(es, i as int, indent as nat, depth as nat);
                lemma_member_lines_push(v, indent as nat, depth as nat, i as nat);
                assert(out@ =~= before + line);
                lines.lemma_flatten_push(line);
            }
        }
    }
}

/// Appends the member lines of the array or JSON Lines root `value`.
#[verifier::loop_isolation(false)]
#[verifier::rlimit(100)]
fn push_element_lines(out: &mut String, value: &JsonValue, indent: usize, depth: usize)
    requires
        value@ is Array || value@ is JsonlRoot,
    ensures
        final(out)@ == old(out)@ + members_text(value@, indent as nat, depth as nat),
    decreases value, 0nat,
{
    let ghost start = out@;
    let ghost v = value@;
    let inner = if depth < usize::MAX {
        depth + 1
    } else {
        depth
    };
    let elements = match value {
        JsonValue::Array(elements) => elements,
        JsonValue::JsonlRoot(elements) => elements,
        _ => {
            return;
        },
    };
    let ghost a = nodes_model(elements@);
    proof {
        crate::document::node::lemma_array_view(*elements);
        crate::document::node::lemma_lines_view(*elements);
        assert(v.children() == a);
    }
    let n = elements.len();
    proof {
        lemma_member_lines_push(v, indent as nat, depth as nat, 0);
        assert(start + Seq::<char>::empty() =~= start);
    }
    for i in 0..n
        invariant
            n == elements@.len(),
            v.children() == a,
            v is Array || v is JsonlRoot,
            a == nodes_model(elements@),
            inner as nat == next_depth(depth as nat),
            out@ == start + member_lines(v, indent as nat, depth as nat, i as nat).flatten(),
    {
        let ghost before = out@;
        proof {
            assert(decreases_to!(elements => elements[i as int]));
            crate::document::node::lemma_node_value(elements@[i as int]);
        }
        push_indent(out, indent, inner);
        push_value(out, &elements[i].value, indent, inner);
        if i < n - 1 {
            out.push(',');
        }
        out.push('\n');
        proof {
            assert(a[i as int] == elements@[i as int]@);
            let line = member_line(v, i as int, indent as nat, depth as nat);
            let lines = member_lines(v, indent as nat, depth as nat, i as nat);
            lemma_member_line_element(v, i as int, indent as nat, depth as nat);
            lemma_member_lines_push(v, indent as nat, depth as nat, i as nat);
            assert(out@ =~= before + line);
            lines.lemma_flatten_push(line);
        }
    }
}

/// Appends the written form of `value` at depth `depth`.
fn push_value(out: &mut String, value: &JsonValue, indent: usize, depth: usize)
    ensures
        final(out)@ == old(out)@ + value_text(value@, indent as nat, depth as nat),
    decreases value, 1nat,
{
    reveal(value_text);
    let ghost start = out@;
    let ghost v = value@;
    match value {
        JsonValue::Object(entries) => {
            let ghost es = entries_model(entries@);
            proof {
                crate::document::node::lemma_object_view(*entries);
            }
            if entries.len() == 0 {
                out.push('{');
                out.push('}');
                assert(out@ =~= start + value_text(v, indent as nat, depth as nat));
                return;
            }
            if should_use_compact_format_object(entries.as_slice()) {
                let compact = serialize_object_compact(entries.as_slice());
                if fits_in_bytes(compact.as_str(), COMPACT_WIDTH) {
                    push_str(out, compact.as_str());
                    return;
                }
            }
            out.push('{');
            out.push('\n');
            push_entry_lines(out, value, indent, depth);
            push_indent(out, indent, depth);
            out.push('}');
            assert(out@ =~= start + value_text(v, indent as nat, depth as nat));
        },
        JsonValue::Array(elements) | JsonValue::JsonlRoot(elements) => {
            let ghost a = nodes_model(elements@);
            proof {
                crate::document::node::lemma_array_view(*elements);
                crate::document::node::lemma_lines_view(*elements);
            }
            if elements.len() == 0 {
                out.push('[');
                out.push(']');
                assert(out@ =~= start + value_text(v, indent as nat, depth as nat));
                return;
            }
            if should_use_compact_format_array(elements.as_slice()) {
                let compact = serialize_array_compact(elements.as_slice());
                if fits_in_bytes(compact.as_str(), COMPACT_WIDTH) {
                    push_str(out, compact.as_str());
                    return;
                }
            }
            out.push('[');
            out.push('\n');
            push_element_lines(out, value, indent, depth);
            push_indent(out, indent, depth);
            out.push(']');
            assert(out@ =~= start + value_text(v, indent as nat, depth as nat));
        },
        _ => {
            push_scalar(out, value);
        },
    }
}

/// The written form of `node` at nesting depth `current_depth`, with
/// `indent_size` spaces per level (see `value_text`).
pub fn serialize_node(node: &JsonNode, indent_size: usize, current_depth: usize) -> (res: String)
    ensures
        res@ == value_text(node@.value, indent_size as nat, current_depth as nat),
{
    let mut out = String::new();
    push_value(&mut out, node.value(), indent_size, current_depth);
    assert(Seq::<char>::empty() + value_text(node@.value, indent_size as nat, current_depth as nat)
        =~= value_text(node@.value, indent_size as nat, current_depth as nat));
    out
}

/// The text a document is saved as.
pub fn document_text(tree: &JsonTree, indent_size: usize) -> (res: String)
    ensures
        res@ == value_text(tree@.value, indent_size as nat, 0),
{
    serialize_node(tree.root(), indent_size, 0)
}

} // verus!
