use logictex::assemble::{parse_root, Document};
use logictex::emit::{emit, Context};
use logictex::error::{ErrorKind, Expected, Key};
use logictex::grammar;
use logictex::header::parse_header;
use logictex::parse;
use logictex::tree::{Node, Rule};

fn chars(s: &str) -> Vec<char> {
    s.chars().collect()
}

fn text(v: &Vec<char>) -> String {
    v.iter().collect()
}

fn doc(body: &str) -> Result<Document, logictex::error::Error> {
    let mut input = String::from("# config\ntitle: T\nauthor: A\ndate: D\n");
    input.push_str(body);
    parse(&chars(&input))
}

fn leaf(kind: Rule, t: &str) -> Node {
    Node {
        kind,
        text: chars(t),
        start: 0,
        end: t.len(),
        children: Vec::new(),
    }
}

fn emit_one(node: &Node) -> Result<String, logictex::error::Error> {
    let mut ctx = Context::default();
    emit(node, &mut ctx).map(|v| text(&v))
}

#[test]
fn sequential_numbering_accepted() {
    let d = doc("1: P\n2: Q\n|- R\n").unwrap();
    assert_eq!(d.sections.len(), 1);
    assert_eq!(d.sections[0].args.len(), 2);
}

#[test]
fn numbering_gap_fails_with_expected_and_actual() {
    let e = doc("1: P\n3: Q\n|- R\n").unwrap_err();
    assert_eq!(
        e.kind,
        ErrorKind::SeqMismatch {
            expected: 2,
            actual: 3
        }
    );
}

#[test]
fn numbering_restarts_each_section() {
    let d = doc("1: P\n|- Q\n1: R\n2: S\n|- T\n").unwrap();
    assert_eq!(d.sections.len(), 2);
    let e = doc("1: P\n|- Q\n2: R\n|- S\n").unwrap_err();
    assert_eq!(
        e.kind,
        ErrorKind::SeqMismatch {
            expected: 1,
            actual: 2
        }
    );
}

#[test]
fn header_any_order_same_metadata() {
    let a = parse(&chars("# config\ntitle: T\nauthor: A\ndate: D\n1: P\n|- Q\n")).unwrap();
    let b = parse(&chars("# config\ndate: D\ntitle: T\nauthor: A\n1: P\n|- Q\n")).unwrap();
    let c = parse(&chars("# config\nauthor: A\ndate: D\ntitle: T\n1: P\n|- Q\n")).unwrap();
    for d in [&a, &b, &c] {
        assert_eq!(text(&d.title), "T");
        assert_eq!(text(&d.author), "A");
        assert_eq!(text(&d.date), "D");
    }
}

#[test]
fn header_values_are_trimmed() {
    let d = parse(&chars("# config\ntitle:   My Title \nauthor: A\ndate: D\n")).unwrap();
    assert_eq!(text(&d.title), "My Title");
}


#[test]
fn header_values_trim_unicode_whitespace() {
    let d = parse(&chars(
        "# config\ntitle: \u{A0}T\u{2003}\nauthor: A\ndate: D\n",
    ))
    .unwrap();
    assert_eq!(text(&d.title), "T");
}

#[test]
fn duplicate_key_fails() {
    let e = parse(&chars("# config\ntitle: T\ntitle: U\nauthor: A\ndate: D\n")).unwrap_err();
    assert_eq!(e.kind, ErrorKind::DuplicateKey { key: Key::Title });
}

#[test]
fn missing_keys_fail_each() {
    let e = parse(&chars("# config\nauthor: A\ndate: D\n")).unwrap_err();
    assert_eq!(e.kind, ErrorKind::MissingKey { key: Key::Title });
    let e = parse(&chars("# config\ntitle: T\nauthor: A\n")).unwrap_err();
    assert_eq!(e.kind, ErrorKind::MissingKey { key: Key::Date });
    let e = parse(&chars("# config\ntitle: T\ndate: D\n")).unwrap_err();
    assert_eq!(e.kind, ErrorKind::MissingKey { key: Key::Author });
}

#[test]
fn underscores_escaped_once() {
    let d = doc("1: x_1\n|- y__z\n").unwrap();
    assert_eq!(text(&d.sections[0].args[0]), "\\argument{x\\_1}");
    assert_eq!(text(&d.sections[0].conclusion), "\\conclusion{y\\_\\_z}");
}

#[test]
fn quantifier_and_operator_mapping() {
    assert_eq!(
        emit_one(&leaf(Rule::Existencial, "@")).unwrap(),
        "\\forall "
    );
    assert_eq!(
        emit_one(&leaf(Rule::Existencial, "&")).unwrap(),
        "\\exists "
    );
    assert_eq!(
        emit_one(&leaf(Rule::Bioperator, "->")).unwrap(),
        "\\rightarrow "
    );
    assert_eq!(emit_one(&leaf(Rule::Bioperator, "^")).unwrap(), "\\land ");
    assert_eq!(emit_one(&leaf(Rule::Bioperator, "V")).unwrap(), "\\lor ");
    assert_eq!(emit_one(&leaf(Rule::Bioperator, "v")).unwrap(), "\\lor ");
}

#[test]
fn unknown_operator_is_internal_error() {
    let e = emit_one(&leaf(Rule::Bioperator, "*")).unwrap_err();
    assert_eq!(e.kind, ErrorKind::Internal);
    let e = emit_one(&leaf(Rule::Existencial, "%")).unwrap_err();
    assert_eq!(e.kind, ErrorKind::Internal);
}

#[test]
fn operators_in_documents() {
    let d = doc("1: P -> Q\n2: P ^ Q\n|- P v Q\n").unwrap();
    assert_eq!(text(&d.sections[0].args[0]), "\\argument{P\\rightarrow Q}");
    assert_eq!(text(&d.sections[0].args[1]), "\\argument{P\\land Q}");
    assert_eq!(text(&d.sections[0].conclusion), "\\conclusion{P\\lor Q}");
}

#[test]
fn two_premises_and_conclusion() {
    let d = doc("1: P\n2: Q\n|- R\n").unwrap();
    assert_eq!(d.sections.len(), 1);
    let s = &d.sections[0];
    assert_eq!(s.args.len(), 2);
    assert_eq!(text(&s.args[0]), "\\argument{P}");
    assert_eq!(text(&s.args[1]), "\\argument{Q}");
    assert_eq!(text(&s.conclusion), "\\conclusion{R}");
}

#[test]
fn trailing_section_without_conclusion_kept() {
    let d = doc("1: P\n|- Q\n1: R\n").unwrap();
    assert_eq!(d.sections.len(), 2);
    assert_eq!(text(&d.sections[1].args[0]), "\\argument{R}");
    assert_eq!(text(&d.sections[1].conclusion), "");
}

#[test]
fn label_without_premises_adds_no_section() {
    let d = doc("# First\n1: P\n|- Q\n# Dangling\n").unwrap();
    assert_eq!(d.sections.len(), 1);
    assert_eq!(text(&d.sections[0].label), "First");
}

#[test]
fn predicate_application_join() {
    let d = doc("1: Loves(x, y)\n2: F()\n|- G(x)\n").unwrap();
    assert_eq!(text(&d.sections[0].args[0]), "\\argument{\\pred{Loves}{x, y}}");
    assert_eq!(text(&d.sections[0].args[1]), "\\argument{\\pred{F}{}}");
    assert_eq!(text(&d.sections[0].conclusion), "\\conclusion{\\pred{G}{x}}");
}

#[test]
fn unknown_config_key_fails() {
    let e = parse(&chars("# config\ntitle: T\nflavour: sweet\nauthor: A\ndate: D\n")).unwrap_err();
    assert_eq!(e.kind, ErrorKind::InvalidKey);
}

#[test]
fn wrong_header_label_fails() {
    let e = parse(&chars("# settings\ntitle: T\nauthor: A\ndate: D\n")).unwrap_err();
    assert_eq!(e.kind, ErrorKind::BadHeaderLabel);
}

#[test]
fn quantified_formula() {
    let d = doc("1: @x (P(x) -> Q(x))\n2: &y P(y)\n|- Q(a)\n").unwrap();
    assert_eq!(
        text(&d.sections[0].args[0]),
        "\\argument{\\forall x(\\pred{P}{x}\\rightarrow \\pred{Q}{x})}"
    );
    assert_eq!(
        text(&d.sections[0].args[1]),
        "\\argument{\\exists y\\pred{P}{y}}"
    );
}

#[test]
fn negation_and_subexpression() {
    let d = doc("1: ~P\n|- ~(P ^ Q)\n").unwrap();
    assert_eq!(text(&d.sections[0].args[0]), "\\argument{\\lnot P}");
    assert_eq!(
        text(&d.sections[0].conclusion),
        "\\conclusion{\\lnot (P\\land Q)}"
    );
}

#[test]
fn justification_rendered_in_brackets() {
    let d = doc("1: P [given]\n|- P\n").unwrap();
    assert_eq!(text(&d.sections[0].args[0]), "\\argument[given]{P}");
}

#[test]
fn literal_passthrough_not_translated() {
    let d = doc("1: `x_1 \\in S`\n|- P\n").unwrap();
    assert_eq!(text(&d.sections[0].args[0]), "\\argument{x_1 \\in S}");
}

#[test]
fn number_too_large_is_bad_number() {
    let e = doc("70000: P\n|- Q\n").unwrap_err();
    assert_eq!(e.kind, ErrorKind::BadNumber);
}

#[test]
fn syntax_errors_name_what_was_expected() {
    assert_eq!(
        doc("1: P)\n").unwrap_err().kind,
        ErrorKind::Syntax {
            expected: Expected::JustificationOrLineEnd
        }
    );
    assert_eq!(
        doc("|? P\n").unwrap_err().kind,
        ErrorKind::Syntax {
            expected: Expected::Turnstile
        }
    );
    assert_eq!(
        doc("1 P\n").unwrap_err().kind,
        ErrorKind::Syntax {
            expected: Expected::Colon
        }
    );
    assert_eq!(
        parse(&chars("")).unwrap_err().kind,
        ErrorKind::Syntax {
            expected: Expected::HeaderLabel
        }
    );
    assert_eq!(
        doc("1: (P\n").unwrap_err().kind,
        ErrorKind::Syntax {
            expected: Expected::CloseParen
        }
    );
    assert_eq!(
        doc("1: `oops\n").unwrap_err().kind,
        ErrorKind::Syntax {
            expected: Expected::CloseBacktick
        }
    );
}

#[test]
fn context_tracks_numbering() {
    let mut ctx = Context::default();
    assert_eq!(ctx.expect_next(), 1);
    assert!(ctx.advance(1));
    assert!(!ctx.advance(3));
    assert_eq!(ctx.expect_next(), 2);
    ctx.reset();
    assert_eq!(ctx.expect_next(), 1);
}

#[test]
fn emitter_arity_errors() {
    let bare = Node {
        kind: Rule::Neg,
        text: Vec::new(),
        start: 0,
        end: 0,
        children: Vec::new(),
    };
    let e = emit_one(&bare).unwrap_err();
    assert_eq!(
        e.kind,
        ErrorKind::Arity {
            rule: Rule::Neg,
            expected: 1,
            got: 0
        }
    );
}

#[test]
fn parse_tree_shape_and_direct_assembly() {
    let input = chars("# config\ntitle: T\nauthor: A\ndate: D\n1: P\n|- Q\n");
    let tree = grammar::parse(&input).unwrap();
    assert_eq!(tree.kind, Rule::Root);
    assert_eq!(tree.children[0].kind, Rule::Header);
    let header = parse_header(&tree.children[0]).unwrap();
    assert_eq!(text(&header.title), "T");
    let d = parse_root(&tree).unwrap();
    assert_eq!(d.sections.len(), 1);
}

#[test]
fn error_spans_point_into_input() {
    let src = "# config\ntitle: T\nauthor: A\ndate: D\n1: P\n3: Q\n|- R\n";
    let e = parse(&chars(src)).unwrap_err();
    assert!(e.start <= e.end && e.end <= src.chars().count());
}
