//! Format strings of field remaps: literal text with `{...}` placeholders.

use vstd::prelude::*;

use crate::assoc::AssocMap;
use crate::text::{chars_of, find_char, first_from, lemma_first_from, same_text, trim, trim_ws};

verus! {

/// One piece of a remap's format string.
#[derive(Debug, Clone, PartialEq, Eq)]
pub enum FormatNode {
    /// Text copied as it stands, such as `Enemy:`.
    Literal(String),
    /// `{data:name}`: the value of the data source `name`.
    Data(String),
    /// `{convert:app.EnemyDef.ID_Fixed}`: a conversion to the named type.
    Convert(String),
    /// `{enum:}`: the enumerator name of the value.
    Enum,
    /// `{_BasicData}`: the value of the named field.
    Field(String),
}

/// Where a remap takes a piece of data from.
pub enum DataSource {
    /// The message of `msg_file` whose id is the GUID found in field `target_field`
    /// of the row that query `target_query` finds.
    MsgLookup { msg_file: String, target_query: String, target_field: String },
    /// The row of the array at `array_path` in `rsz_file` whose field `match_field`
    /// equals the current value.
    RszQuery { rsz_file: String, array_path: String, match_field: String },
}

/// How the fields of a class are shown: its format, its field type remaps, and its
/// named queries and data sources.
pub struct Remap {
    pub format: Vec<FormatNode>,
    pub fields: AssocMap<String, String>,
    pub queries: AssocMap<String, DataSource>,
    pub data: AssocMap<String, DataSource>,
}

/// A `FormatNode` with its text as a sequence of characters.
pub enum FormatNodeModel {
    Literal(Seq<char>),
    Data(Seq<char>),
    Convert(Seq<char>),
    Enum,
    Field(Seq<char>),
}

impl View for FormatNode {
    type V = FormatNodeModel;

    open spec fn view(&self) -> FormatNodeModel {
        match self {
            FormatNode::Literal(s) => FormatNodeModel::Literal(s@),
            FormatNode::Data(s) => FormatNodeModel::Data(s@),
            FormatNode::Convert(s) => FormatNodeModel::Convert(s@),
            FormatNode::Enum => FormatNodeModel::Enum,
            FormatNode::Field(s) => FormatNodeModel::Field(s@),
        }
    }
}

/// The models of a sequence of nodes.
pub open spec fn nodes_view(v: Seq<FormatNode>) -> Seq<FormatNodeModel> {
    v.map_values(|n: FormatNode| n@)
}

/// A placeholder starts at `i`: an opening brace, then at least one character up
/// to the next closing brace, which exists.
pub open spec fn opens_placeholder(s: Seq<char>, i: int) -> bool {
    &&& 0 <= i
    &&& i + 1 < s.len()
    &&& s[i] == '{'
    &&& s[i + 1] != '}'
    &&& first_from(s, '}', i + 1) < s.len()
}

/// Where the placeholder that starts at `i` ends: just after its closing brace.
pub open spec fn placeholder_end(s: Seq<char>, i: int) -> int {
    first_from(s, '}', i + 1) + 1
}

/// The literal node for the text from `a` to `b`, where that text is not empty.
pub open spec fn literal_between(s: Seq<char>, a: int, b: int) -> Seq<FormatNodeModel> {
    if a < b {
        seq![FormatNodeModel::Literal(s.subrange(a, b))]
    } else {
        seq![]
    }
}

/// The node for a placeholder `whole` whose trimmed command and argument are
/// `command` and `arg`: `data`, `convert` and `enum` name their nodes, another
/// command without an argument names a field, and anything else is literal text.
pub open spec fn node_for(command: Seq<char>, arg: Seq<char>, whole: Seq<char>) -> FormatNodeModel {
    if command == seq!['d', 'a', 't', 'a'] {
        FormatNodeModel::Data(arg)
    } else if command == seq!['c', 'o', 'n', 'v', 'e', 'r', 't'] {
        FormatNodeModel::Convert(arg)
    } else if command == seq!['e', 'n', 'u', 'm'] {
        FormatNodeModel::Enum
    } else if arg.len() == 0 {
        FormatNodeModel::Field(command)
    } else {
        FormatNodeModel::Literal(whole)
    }
}

/// The node that a whole placeholder `{command:arg}` or `{command}` stands for.
/// Command and argument are split at the first colon and trimmed.
pub open spec fn placeholder_node(whole: Seq<char>) -> FormatNodeModel {
    let inner = whole.subrange(1, whole.len() - 1);
    let c = first_from(inner, ':', 0);
    let command = trim_ws(inner.take(c));
    let arg = if c < inner.len() {
        trim_ws(inner.skip(c + 1))
    } else {
        Seq::<char>::empty()
    };
    node_for(command, arg, whole)
}

/// The nodes of `s` from position `p` on, where the pending literal text began at
/// `start`. Placeholders are taken leftmost first and do not overlap.
pub open spec fn parse_from(s: Seq<char>, start: int, p: int) -> Seq<FormatNodeModel>
    decreases s.len() - p,
{
    if p < 0 || p >= s.len() {
        literal_between(s, start, s.len() as int)
    } else if opens_placeholder(s, p) {
        let e = placeholder_end(s, p);
        proof {
            lemma_first_from(s, '}', p + 1);
        }
        literal_between(s, start, p) + seq![placeholder_node(s.subrange(p, e))] + parse_from(
            s,
            e,
            e,
        )
    } else {
        parse_from(s, start, p + 1)
    }
}

/// The nodes of a whole format string.
pub open spec fn format_nodes(s: Seq<char>) -> Seq<FormatNodeModel> {
    parse_from(s, 0, 0)
}

/// The node for a whole placeholder, such as `{data:name}`.
fn make_placeholder_node(whole: &str) -> (n: FormatNode)
    requires
        whole@.len() >= 2,
    ensures
        n@ == placeholder_node(whole@),
{
    let len = whole.unicode_len();
    let inner = whole.substring_char(1, len - 1);
    let inner_chars = chars_of(inner);
    let c = find_char(&inner_chars, ':', 0);
    proof {
        lemma_first_from(inner@, ':', 0);
    }
    let command = trim(inner.substring_char(0, c));
    let arg: &str = if c < inner_chars.len() {
        trim(inner.substring_char(c + 1, inner_chars.len()))
    } else {
        ""
    };
    proof {
        reveal_strlit("");
        assert(inner@.take(c as int) == inner@.subrange(0, c as int));
        if c < inner@.len() {
            assert(inner@.skip(c + 1) == inner@.subrange(c + 1, inner@.len() as int));
        }
        assert(inner@ == whole@.subrange(1, whole@.len() - 1));
        assert(command@ == trim_ws(inner@.take(c as int)));
        assert(c < inner@.len() ==> arg@ == trim_ws(inner@.skip(c + 1)));
        assert(c >= inner@.len() ==> arg@ == Seq::<char>::empty());
    }
    classify_placeholder(command, arg, whole)
}

/// The node for a placeholder `whole` whose trimmed command and argument are
/// `command` and `arg`.
pub fn classify_placeholder(command: &str, arg: &str, whole: &str) -> (n: FormatNode)
    ensures
        n@ == node_for(command@, arg@, whole@),
{
    proof {
        reveal_strlit("data");
        reveal_strlit("convert");
        reveal_strlit("enum");
        assert("data"@ == seq!['d', 'a', 't', 'a']);
        assert("convert"@ == seq!['c', 'o', 'n', 'v', 'e', 'r', 't']);
        assert("enum"@ == seq!['e', 'n', 'u', 'm']);
    }
    if same_text(command, "data") {
        FormatNode::Data(arg.to_owned())
    } else if same_text(command, "convert") {
        FormatNode::Convert(arg.to_owned())
    } else if same_text(command, "enum") {
        FormatNode::Enum
    } else if arg.unicode_len() == 0 {
        FormatNode::Field(command.to_owned())
    } else {
        FormatNode::Literal(whole.to_owned())
    }
}

/// Without a closing brace from `q` on, there is none from any later position.
proof fn lemma_no_close_after(s: Seq<char>, q: int, r: int)
    requires
        0 <= q <= r <= s.len(),
        first_from(s, '}', q) == s.len(),
    ensures
        first_from(s, '}', r) == s.len(),
    decreases r - q,
{
    if q < r {
        lemma_no_close_after(s, q + 1, r);
    }
}

/// Without a closing brace after `p`, all that is left from `p` on is literal text.
proof fn lemma_tail_literal(s: Seq<char>, start: int, p: int)
    requires
        0 <= p <= s.len(),
        p + 1 >= s.len() || first_from(s, '}', p + 1) == s.len(),
    ensures
        parse_from(s, start, p) == literal_between(s, start, s.len() as int),
    decreases s.len() - p,
{
    if p < s.len() {
        if p + 2 <= s.len() {
            lemma_no_close_after(s, p + 1, p + 2);
        }
        lemma_tail_literal(s, start, p + 1);
    }
}

/// Splits a remap format string into literal text and placeholders.
///
/// A placeholder is `{`, at least one character other than `}`, then `}`; they are
/// found leftmost first and do not overlap. The text of a placeholder is split at
/// its first colon into a command and an argument, both trimmed: `data`, `convert`
/// and `enum` give `Data`, `Convert` and `Enum`; another command without an argument
/// gives `Field`; anything else stays as literal text, braces included. Text between
/// placeholders gives `Literal` nodes.
pub fn parse_format_string(format_str: &str) -> (nodes: Vec<FormatNode>)
    ensures
        nodes_view(nodes@) == format_nodes(format_str@),
{
    let ghost s = format_str@;
    let chars = chars_of(format_str);
    let n = chars.len();
    let mut nodes: Vec<FormatNode> = Vec::new();
    let mut last_end: usize = 0;
    let mut p: usize = 0;
    while p < n
        invariant
            chars@ == s,
            s == format_str@,
            n == s.len(),
            last_end <= p <= n,
            nodes_view(nodes@) + parse_from(s, last_end as int, p as int) == format_nodes(s),
        ensures
            chars@ == s,
            s == format_str@,
            n == s.len(),
            last_end <= n,
            nodes_view(nodes@) + literal_between(s, last_end as int, n as int) == format_nodes(s),
        decreases n - p,
    {
        if chars[p] == '{' && p + 1 < n && chars[p + 1] != '}' {
            let k = find_char(&chars, '}', p + 1);
            proof {
                lemma_first_from(s, '}', p + 1);
            }
            if k == n {
                proof {
                    lemma_tail_literal(s, last_end as int, p as int);
                }
                break;
            }
            let ghost before = nodes@;
            if p > last_end {
                nodes.push(FormatNode::Literal(format_str.substring_char(last_end, p).to_owned()));
            }
            let whole = format_str.substring_char(p, k + 1);
            nodes.push(make_placeholder_node(whole));
            proof {
                assert(nodes_view(nodes@) == nodes_view(before) + literal_between(
                    s,
                    last_end as int,
                    p as int,
                ) + seq![placeholder_node(s.subrange(p as int, k + 1))]);
            }
            last_end = k + 1;
            p = k + 1;
        } else {
            p = p + 1;
        }
    }
    let ghost before = nodes@;
    if last_end < n {
        nodes.push(FormatNode::Literal(format_str.substring_char(last_end, n).to_owned()));
    }
    assert(nodes_view(nodes@) == nodes_view(before) + literal_between(s, last_end as int, n as int));
    nodes
}

} // verus!
