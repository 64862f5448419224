use ree_save_core::remap::{parse_format_string, FormatNode};
use regex::Regex;

fn lit(s: &str) -> FormatNode {
    FormatNode::Literal(s.to_string())
}

fn field(s: &str) -> FormatNode {
    FormatNode::Field(s.to_string())
}

/// The same splitting, written with the `regex` crate, to compare against.
fn regex_reference(format_str: &str) -> Vec<FormatNode> {
    let mut nodes = Vec::new();
    let re = Regex::new(r"\{([^}]+)\}").unwrap();
    let mut last_end = 0;
    for cap in re.captures_iter(format_str) {
        let whole_match = cap.get(0).unwrap();
        let inner_text = cap.get(1).unwrap().as_str();
        if whole_match.start() > last_end {
            nodes.push(lit(&format_str[last_end..whole_match.start()]));
        }
        let parts: Vec<&str> = inner_text.splitn(2, ':').collect();
        let command = parts[0].trim();
        let arg = if parts.len() > 1 { parts[1].trim() } else { "" };
        match command {
            "data" => nodes.push(FormatNode::Data(arg.to_string())),
            "convert" => nodes.push(FormatNode::Convert(arg.to_string())),
            "enum" => nodes.push(FormatNode::Enum),
            _ if arg.is_empty() => nodes.push(field(command)),
            _ => nodes.push(lit(whole_match.as_str())),
        }
        last_end = whole_match.end();
    }
    if last_end < format_str.len() {
        nodes.push(lit(&format_str[last_end..]));
    }
    nodes
}

#[test]
fn literal_only() {
    assert_eq!(parse_format_string("Enemy:"), vec![lit("Enemy:")]);
}

#[test]
fn data_placeholder() {
    assert_eq!(parse_format_string("{data:name}"), vec![FormatNode::Data("name".to_string())]);
}

#[test]
fn convert_placeholder() {
    assert_eq!(
        parse_format_string("{convert:app.EnemyDef.ID_Fixed}"),
        vec![FormatNode::Convert("app.EnemyDef.ID_Fixed".to_string())]
    );
}

#[test]
fn enum_placeholder() {
    assert_eq!(parse_format_string("{enum:}"), vec![FormatNode::Enum]);
    assert_eq!(parse_format_string("{enum}"), vec![FormatNode::Enum]);
    assert_eq!(parse_format_string("{enum:ignored}"), vec![FormatNode::Enum]);
}

#[test]
fn field_placeholder() {
    assert_eq!(parse_format_string("{_BasicData}"), vec![field("_BasicData")]);
    assert_eq!(parse_format_string("{_Id:}"), vec![field("_Id")]);
}

#[test]
fn mixed_text() {
    assert_eq!(
        parse_format_string("Enemy: {data:name} ({enum:})"),
        vec![
            lit("Enemy: "),
            FormatNode::Data("name".to_string()),
            lit(" ("),
            FormatNode::Enum,
            lit(")"),
        ]
    );
}

#[test]
fn unknown_command_stays_literal() {
    assert_eq!(parse_format_string("{foo:bar}"), vec![lit("{foo:bar}")]);
    assert_eq!(parse_format_string("{:x}"), vec![lit("{:x}")]);
    assert_eq!(parse_format_string("{a:b:c}"), vec![lit("{a:b:c}")]);
}

#[test]
fn argument_keeps_later_colons() {
    assert_eq!(parse_format_string("{data:b:c}"), vec![FormatNode::Data("b:c".to_string())]);
}

#[test]
fn command_and_argument_are_trimmed() {
    assert_eq!(parse_format_string("{ data : x }"), vec![FormatNode::Data("x".to_string())]);
    assert_eq!(parse_format_string("{ _Hp }"), vec![field("_Hp")]);
    assert_eq!(parse_format_string("{ }"), vec![field("")]);
}

#[test]
fn empty_braces_are_text() {
    assert_eq!(parse_format_string("{}"), vec![lit("{}")]);
    assert_eq!(parse_format_string("a{}b"), vec![lit("a{}b")]);
}

#[test]
fn open_brace_inside_placeholder() {
    assert_eq!(parse_format_string("{{a}"), vec![field("{a")]);
}

#[test]
fn unclosed_brace_is_text() {
    assert_eq!(parse_format_string("abc{def"), vec![lit("abc{def")]);
    assert_eq!(parse_format_string("{x"), vec![lit("{x")]);
}

#[test]
fn stray_closing_brace_is_text() {
    assert_eq!(parse_format_string("a}b{c}"), vec![lit("a}b"), field("c")]);
}

#[test]
fn empty_format() {
    assert_eq!(parse_format_string(""), Vec::<FormatNode>::new());
}

#[test]
fn adjacent_placeholders() {
    assert_eq!(parse_format_string("{a}{b}"), vec![field("a"), field("b")]);
}

#[test]
fn non_ascii_text() {
    assert_eq!(parse_format_string("é{x}ü"), vec![lit("é"), field("x"), lit("ü")]);
    assert_eq!(parse_format_string("{名前}"), vec![field("名前")]);
}

#[test]
fn matches_regex_splitting() {
    let samples = [
        "", "{", "}", "{}", "{{}}", "{a}", "{{a}}", "a{b}c", "{data:x}{enum:}", "{ convert : T }",
        "x{y:z}w", "{data}", "{data:}", "}{a}{", "{a}}", "{ \t}", "{\u{3000}data\u{3000}:v}",
        "Enemy: {data:name} ({enum:}) {_Field} {bad:arg} end", "{é:ü}", "{:}", "{::}",
    ];
    for s in samples {
        assert_eq!(parse_format_string(s), regex_reference(s), "format {:?}", s);
    }
}

#[test]
fn literals_are_never_empty() {
    for s in ["{a}{b}", "x{a}", "{a}x", "{}{a}{}", "{a:b}{c}"] {
        for node in parse_format_string(s) {
            if let FormatNode::Literal(t) = node {
                assert!(!t.is_empty());
            }
        }
    }
}

#[test]
fn plain_text_is_one_literal() {
    assert_eq!(parse_format_string("no braces here"), vec![lit("no braces here")]);
    assert_eq!(parse_format_string("only { opens"), vec![lit("only { opens")]);
    assert_eq!(parse_format_string("only } closes"), vec![lit("only } closes")]);
}

#[test]
fn leading_placeholder_stands_alone() {
    let rest = "x{data:y}z";
    let mut expected = vec![field("id")];
    expected.extend(parse_format_string(rest));
    assert_eq!(parse_format_string(&format!("{{id}}{}", rest)), expected);
}

#[test]
fn unicode_white_space_is_trimmed() {
    assert_eq!(
        parse_format_string("{\u{3000}data\u{2003}:\u{a0}name\u{85}}"),
        vec![FormatNode::Data("name".to_string())]
    );
    assert_eq!(parse_format_string("{\u{200b}x}"), vec![field("\u{200b}x")]);
}
