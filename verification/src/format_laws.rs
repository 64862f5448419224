//! What holds of every parse of a format string.

use vstd::prelude::*;

use crate::remap::{
    format_nodes, literal_between, node_for, opens_placeholder, parse_from, placeholder_end,
    placeholder_node, FormatNodeModel,
};
use crate::text::{first_from, lemma_first_from, trim_end_ws, trim_start_ws, trim_ws, white_space};

verus! {

/// No literal node of `nodes` is empty.
pub open spec fn literals_not_empty(nodes: Seq<FormatNodeModel>) -> bool {
    forall|i: int|
        0 <= i < nodes.len() ==> (#[trigger] nodes[i] matches FormatNodeModel::Literal(t) ==> t.len()
            > 0)
}

proof fn lemma_literals_concat(a: Seq<FormatNodeModel>, b: Seq<FormatNodeModel>)
    requires
        literals_not_empty(a),
        literals_not_empty(b),
    ensures
        literals_not_empty(a + b),
{
    assert forall|i: int| 0 <= i < (a + b).len() implies (#[trigger] (a + b)[i] matches FormatNodeModel::Literal(
        t,
    ) ==> t.len() > 0) by {
        if i < a.len() {
            assert((a + b)[i] == a[i]);
        } else {
            assert((a + b)[i] == b[i - a.len()]);
        }
    }
}

proof fn lemma_parse_from_literals(s: Seq<char>, start: int, p: int)
    requires
        0 <= start <= p,
    ensures
        literals_not_empty(parse_from(s, start, p)),
    decreases s.len() - p,
{
    if p < 0 || p >= s.len() {
    } else if opens_placeholder(s, p) {
        let e = placeholder_end(s, p);
        lemma_first_from(s, '}', p + 1);
        lemma_parse_from_literals(s, e, e);
        let whole = s.subrange(p, e);
        assert(literals_not_empty(seq![placeholder_node(whole)])) by {
            assert(seq![placeholder_node(whole)][0] == placeholder_node(whole));
        }
        lemma_literals_concat(literal_between(s, start, p), seq![placeholder_node(whole)]);
        lemma_literals_concat(
            literal_between(s, start, p) + seq![placeholder_node(whole)],
            parse_from(s, e, e),
        );
    } else {
        lemma_parse_from_literals(s, start, p + 1);
    }
}

/// Every literal node of a parsed format string holds some text: text between two
/// adjacent placeholders, or at either end, gives no empty literal.
pub proof fn law_literals_not_empty(s: Seq<char>)
    ensures
        literals_not_empty(format_nodes(s)),
{
    lemma_parse_from_literals(s, 0, 0);
}

proof fn lemma_no_open_brace(s: Seq<char>, start: int, p: int)
    requires
        0 <= p <= s.len(),
        forall|i: int| 0 <= i < s.len() ==> s[i] != '{',
    ensures
        parse_from(s, start, p) == literal_between(s, start, s.len() as int),
    decreases s.len() - p,
{
    if p < s.len() {
        lemma_no_open_brace(s, start, p + 1);
    }
}

proof fn lemma_no_close_brace(s: Seq<char>, q: int)
    requires
        0 <= q <= s.len(),
        forall|i: int| 0 <= i < s.len() ==> s[i] != '}',
    ensures
        first_from(s, '}', q) == s.len(),
    decreases s.len() - q,
{
    if q < s.len() {
        lemma_no_close_brace(s, q + 1);
    }
}

proof fn lemma_no_placeholder_from(s: Seq<char>, start: int, p: int)
    requires
        0 <= p <= s.len(),
        forall|i: int| 0 <= i < s.len() ==> s[i] != '}',
    ensures
        parse_from(s, start, p) == literal_between(s, start, s.len() as int),
    decreases s.len() - p,
{
    if p < s.len() {
        if p + 1 <= s.len() {
            lemma_no_close_brace(s, p + 1);
        }
        lemma_no_placeholder_from(s, start, p + 1);
    }
}

/// A text without an opening brace, or without a closing one, is a single literal
/// node, or no node at all where it is empty.
pub proof fn law_plain_text(s: Seq<char>)
    requires
        (forall|i: int| 0 <= i < s.len() ==> s[i] != '{') || (forall|i: int|
            0 <= i < s.len() ==> s[i] != '}'),
    ensures
        format_nodes(s) == (if s.len() > 0 {
            seq![FormatNodeModel::Literal(s)]
        } else {
            Seq::<FormatNodeModel>::empty()
        }),
{
    if forall|i: int| 0 <= i < s.len() ==> s[i] != '{' {
        lemma_no_open_brace(s, 0, 0);
    } else {
        lemma_no_placeholder_from(s, 0, 0);
    }
    assert(s.subrange(0, s.len() as int) == s);
}

/// `p` is one whole placeholder: an opening brace, at least one character that is
/// not a closing brace, and a closing brace.
pub open spec fn is_placeholder(p: Seq<char>) -> bool {
    &&& p.len() >= 3
    &&& p[0] == '{'
    &&& p.last() == '}'
    &&& forall|i: int| 1 <= i < p.len() - 1 ==> p[i] != '}'
}

proof fn lemma_first_from_shift(p: Seq<char>, t: Seq<char>, c: char, i: int)
    requires
        0 <= i <= t.len(),
    ensures
        first_from(p + t, c, p.len() + i) == p.len() + first_from(t, c, i),
    decreases t.len() - i,
{
    let s = p + t;
    if i < t.len() {
        assert(s[p.len() + i] == t[i]);
        lemma_first_from_shift(p, t, c, i + 1);
    }
}

proof fn lemma_first_close_in_placeholder(p: Seq<char>, t: Seq<char>, i: int)
    requires
        is_placeholder(p),
        1 <= i <= p.len() - 1,
    ensures
        first_from(p + t, '}', i) == p.len() - 1,
    decreases p.len() - 1 - i,
{
    let s = p + t;
    assert(s[i] == p[i]);
    if i < p.len() - 1 {
        lemma_first_close_in_placeholder(p, t, i + 1);
    }
}

proof fn lemma_parse_shift(p: Seq<char>, t: Seq<char>, a: int, b: int)
    requires
        0 <= a <= b <= t.len(),
    ensures
        parse_from(p + t, p.len() + a, p.len() + b) == parse_from(t, a, b),
    decreases t.len() - b,
{
    let s = p + t;
    let m = p.len() as int;
    if b == t.len() {
        assert(s.subrange(m + a, s.len() as int) == t.subrange(a, t.len() as int));
    } else {
        assert(s[m + b] == t[b]);
        if b + 1 < t.len() {
            assert(s[m + b + 1] == t[b + 1]);
        }
        if b + 1 <= t.len() {
            lemma_first_from_shift(p, t, '}', b + 1);
        }
        if opens_placeholder(t, b) {
            let e = placeholder_end(t, b);
            lemma_first_from(t, '}', b + 1);
            lemma_parse_shift(p, t, e, e);
            assert(s.subrange(m + b, m + e) == t.subrange(b, e));
            assert(s.subrange(m + a, m + b) == t.subrange(a, b));
            assert(literal_between(s, m + a, m + b) == literal_between(t, a, b));
        } else {
            lemma_parse_shift(p, t, a, b + 1);
        }
    }
}

/// A placeholder at the start of a text is parsed on its own: what follows it is
/// parsed as though it stood alone.
pub proof fn law_placeholder_prefix(p: Seq<char>, t: Seq<char>)
    requires
        is_placeholder(p),
    ensures
        format_nodes(p + t) == seq![placeholder_node(p)] + format_nodes(t),
{
    let s = p + t;
    let m = p.len() as int;
    assert(s[0] == p[0]);
    assert(s[1] == p[1]);
    lemma_first_close_in_placeholder(p, t, 1);
    assert(opens_placeholder(s, 0));
    assert(placeholder_end(s, 0) == m);
    assert(s.subrange(0, m) == p);
    lemma_parse_shift(p, t, 0, 0);
    assert(literal_between(s, 0, 0) == Seq::<FormatNodeModel>::empty());
}

/// `s` neither begins nor ends with white space.
pub open spec fn trimmed(s: Seq<char>) -> bool {
    s.len() == 0 || (!white_space(s[0]) && !white_space(s.last()))
}

/// `s` holds no `c`.
pub open spec fn lacks(s: Seq<char>, c: char) -> bool {
    forall|i: int| 0 <= i < s.len() ==> s[i] != c
}

proof fn lemma_trimmed(s: Seq<char>)
    requires
        trimmed(s),
    ensures
        trim_ws(s) == s,
{
    assert(trim_start_ws(s) == s);
    assert(trim_end_ws(s) == s);
}

proof fn lemma_first_colon(c: Seq<char>, a: Seq<char>, i: int)
    requires
        lacks(c, ':'),
        0 <= i <= c.len(),
    ensures
        first_from(c + seq![':'] + a, ':', i) == c.len(),
    decreases c.len() - i,
{
    let s = c + seq![':'] + a;
    if i < c.len() {
        assert(s[i] == c[i]);
        lemma_first_colon(c, a, i + 1);
    } else {
        assert(s[i] == ':');
    }
}

proof fn lemma_no_colon(c: Seq<char>, i: int)
    requires
        lacks(c, ':'),
        0 <= i <= c.len(),
    ensures
        first_from(c, ':', i) == c.len(),
    decreases c.len() - i,
{
    if i < c.len() {
        lemma_no_colon(c, i + 1);
    }
}

/// The whole placeholder `{c:a}`.
pub open spec fn with_arg(c: Seq<char>, a: Seq<char>) -> Seq<char> {
    seq!['{'] + c + seq![':'] + a + seq!['}']
}

/// The whole placeholder `{c}`.
pub open spec fn bare(c: Seq<char>) -> Seq<char> {
    seq!['{'] + c + seq!['}']
}

proof fn lemma_alone(p: Seq<char>)
    requires
        super::format_laws::is_placeholder(p),
    ensures
        format_nodes(p) == seq![placeholder_node(p)],
{
    law_placeholder_prefix(p, Seq::<char>::empty());
    assert(p + Seq::<char>::empty() == p);
    assert(format_nodes(Seq::<char>::empty()) == Seq::<FormatNodeModel>::empty());
}

/// A format string that is the single placeholder `{c:a}`, with a command free of
/// colons and braces, is the node for `c` and the argument `a` trimmed.
proof fn lemma_with_arg(c: Seq<char>, a: Seq<char>)
    requires
        lacks(c, ':'),
        lacks(c, '}'),
        lacks(a, '}'),
        trimmed(c),
    ensures
        format_nodes(with_arg(c, a)) == seq![node_for(c, trim_ws(a), with_arg(c, a))],
{
    let p = with_arg(c, a);
    let inner = c + seq![':'] + a;
    assert(p == seq!['{'] + inner + seq!['}']);
    assert(is_placeholder(p)) by {
        assert forall|i: int| 1 <= i < p.len() - 1 implies p[i] != '}' by {
            assert(p[i] == inner[i - 1]);
            if i - 1 < c.len() {
                assert(inner[i - 1] == c[i - 1]);
            } else if i - 1 > c.len() {
                assert(inner[i - 1] == a[i - 1 - c.len() - 1]);
            }
        }
    }
    lemma_alone(p);
    assert(p.subrange(1, p.len() - 1) == inner);
    lemma_first_colon(c, a, 0);
    assert(inner.take(c.len() as int) == c);
    assert(inner.skip(c.len() as int + 1) == a);
    lemma_trimmed(c);
}

/// The argument of a data placeholder is the whole text after its first colon,
/// trimmed: `{data:n}` for a trimmed `n` is the data node for `n`.
pub proof fn law_data_placeholder(n: Seq<char>)
    requires
        lacks(n, '}'),
        trimmed(n),
    ensures
        format_nodes(with_arg(seq!['d', 'a', 't', 'a'], n)) == seq![FormatNodeModel::Data(n)],
{
    lemma_with_arg(seq!['d', 'a', 't', 'a'], n);
    lemma_trimmed(n);
}

/// `{convert:t}` for a trimmed `t` is the conversion node for `t`.
pub proof fn law_convert_placeholder(t: Seq<char>)
    requires
        lacks(t, '}'),
        trimmed(t),
    ensures
        format_nodes(with_arg(seq!['c', 'o', 'n', 'v', 'e', 'r', 't'], t)) == seq![
            FormatNodeModel::Convert(t),
        ],
{
    lemma_with_arg(seq!['c', 'o', 'n', 'v', 'e', 'r', 't'], t);
    lemma_trimmed(t);
}

/// `{enum:a}` is the enumerator node, whatever its argument.
pub proof fn law_enum_placeholder(a: Seq<char>)
    requires
        lacks(a, '}'),
    ensures
        format_nodes(with_arg(seq!['e', 'n', 'u', 'm'], a)) == seq![FormatNodeModel::Enum],
{
    lemma_with_arg(seq!['e', 'n', 'u', 'm'], a);
}

/// `{f}`, for a trimmed name `f` that is not a command, is the field node for `f`.
pub proof fn law_field_placeholder(f: Seq<char>)
    requires
        f.len() > 0,
        lacks(f, ':'),
        lacks(f, '}'),
        trimmed(f),
        f != seq!['d', 'a', 't', 'a'],
        f != seq!['c', 'o', 'n', 'v', 'e', 'r', 't'],
        f != seq!['e', 'n', 'u', 'm'],
    ensures
        format_nodes(bare(f)) == seq![FormatNodeModel::Field(f)],
{
    let p = bare(f);
    assert(is_placeholder(p)) by {
        assert forall|i: int| 1 <= i < p.len() - 1 implies p[i] != '}' by {
            assert(p[i] == f[i - 1]);
        }
    }
    lemma_alone(p);
    assert(p.subrange(1, p.len() - 1) == f);
    lemma_no_colon(f, 0);
    assert(f.take(f.len() as int) == f);
    lemma_trimmed(f);
}

/// `{c:a}` with a command `c` that is none of `data`, `convert` and `enum`, and an
/// argument that is not empty once trimmed, stays literal text, braces included.
pub proof fn law_unknown_command_placeholder(c: Seq<char>, a: Seq<char>)
    requires
        lacks(c, ':'),
        lacks(c, '}'),
        lacks(a, '}'),
        trimmed(c),
        trimmed(a),
        a.len() > 0,
        c != seq!['d', 'a', 't', 'a'],
        c != seq!['c', 'o', 'n', 'v', 'e', 'r', 't'],
        c != seq!['e', 'n', 'u', 'm'],
    ensures
        format_nodes(with_arg(c, a)) == seq![FormatNodeModel::Literal(with_arg(c, a))],
{
    lemma_with_arg(c, a);
    lemma_trimmed(a);
}

} // verus!
