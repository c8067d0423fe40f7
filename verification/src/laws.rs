use vstd::prelude::*;

use crate::emit::{
    emit_spec, escape_underscores, internal_at, parse_num_spec, unescape_underscores,
};
use crate::error::{Error, ErrorKind};
use crate::assemble::{empty_section, sections_spec, SectionV};
use crate::emit::{emit_concat_spec, emit_list_spec};
use crate::grammar::{wf_arg, wf_body_node, wf_conclusion, wf_formula, wf_item, wf_label};
use crate::header::{header_lines_spec, header_spec, trim_spec, HeaderV};
use crate::tree::{NodeV, Rule};

verus! {

broadcast use vstd::string::group_string_axioms;

/// Law: the quantifier and connective mappings are total and exact:
/// `@` gives `\forall `, `&` gives `\exists `, `->` gives
/// `\rightarrow `, `^` gives `\land `, and both `V` and `v` give
/// `\lor `; any other token on these kinds is an internal invariant
/// violation, never silent output.
pub proof fn lemma_operator_mapping(n: NodeV, c: u16)
    ensures
        n.kind == Rule::Existencial && n.text == "@"@ ==> emit_spec(n, c) == (
            Ok::<Seq<char>, Error>("\\forall "@),
            c,
        ),
        n.kind == Rule::Existencial && n.text == "&"@ ==> emit_spec(n, c) == (
            Ok::<Seq<char>, Error>("\\exists "@),
            c,
        ),
        n.kind == Rule::Bioperator && n.text == "->"@ ==> emit_spec(n, c) == (
            Ok::<Seq<char>, Error>("\\rightarrow "@),
            c,
        ),
        n.kind == Rule::Bioperator && n.text == "^"@ ==> emit_spec(n, c) == (
            Ok::<Seq<char>, Error>("\\land "@),
            c,
        ),
        n.kind == Rule::Bioperator && (n.text == "V"@ || n.text == "v"@) ==> emit_spec(n, c) == (
            Ok::<Seq<char>, Error>("\\lor "@),
            c,
        ),
        n.kind == Rule::Existencial && n.text != "@"@ && n.text != "&"@ ==> emit_spec(n, c) == (
            Err::<Seq<char>, Error>(internal_at(n)),
            c,
        ),
        n.kind == Rule::Bioperator && n.text != "->"@ && n.text != "^"@ && n.text != "V"@
            && n.text != "v"@ ==> emit_spec(n, c) == (Err::<Seq<char>, Error>(internal_at(n)), c),
{
    reveal_strlit("@");
    reveal_strlit("&");
    reveal_strlit("->");
    reveal_strlit("^");
    reveal_strlit("V");
    reveal_strlit("v");
    assert("@"@[0] == '@' && "&"@[0] == '&' && "^"@[0] == '^' && "V"@[0] == 'V' && "v"@[0]
        == 'v');
    assert("@"@ != "&"@);
    assert("->"@ != "^"@);
    assert("->"@ != "V"@ && "->"@ != "v"@);
    assert("^"@ != "V"@ && "^"@ != "v"@);
    assert("V"@ != "v"@);
}

/// The first character of an escaped string is never an underscore:
/// an emitted underscore always sits behind its own backslash.
proof fn lemma_escape_head(s: Seq<char>)
    ensures
        escape_underscores(s).len() > 0 ==> escape_underscores(s)[0] != '_',
{
    if s.len() > 0 {
        if s[0] == '_' {
            assert(escape_underscores(s)[0] == '\\');
        } else {
            assert(escape_underscores(s)[0] == s[0]);
        }
    }
}

/// Law: escaping is applied exactly once and loses nothing: removing
/// the backslash written before each underscore recovers the operand
/// text, so an operand is never double-escaped.
pub proof fn lemma_escape_roundtrip(s: Seq<char>)
    ensures
        unescape_underscores(escape_underscores(s)) == s,
    decreases s.len(),
{
    let e = escape_underscores(s);
    if s.len() == 0 {
        assert(e =~= Seq::<char>::empty());
        assert(unescape_underscores(e) =~= s);
    } else {
        let rest = s.drop_first();
        let er = escape_underscores(rest);
        lemma_escape_roundtrip(rest);
        if s[0] == '_' {
            assert(e =~= seq!['\\', '_'] + er);
            assert(e[0] == '\\' && e[1] == '_');
            assert(e.skip(2) =~= er);
            assert(unescape_underscores(e) =~= seq!['_'] + rest);
            assert(seq!['_'] + rest =~= s);
        } else {
            assert(e =~= seq![s[0]] + er);
            assert(e[0] == s[0]);
            lemma_escape_head(rest);
            if e.len() >= 2 {
                assert(e[1] == er[0]);
                assert(e[1] != '_');
            }
            assert(e.drop_first() =~= er);
            assert(unescape_underscores(e) =~= seq![s[0]] + rest);
            assert(seq![s[0]] + rest =~= s);
        }
    }
}

/// Law: an operand's fragment is its text with every underscore
/// escaped, recoverable by unescaping; the numbering counter is
/// untouched.
pub proof fn lemma_operand_escaping(n: NodeV, c: u16)
    requires
        n.kind == Rule::Operand,
    ensures
        emit_spec(n, c) == (Ok::<Seq<char>, Error>(escape_underscores(n.text)), c),
        unescape_underscores(escape_underscores(n.text)) == n.text,
{
    lemma_escape_roundtrip(n.text);
}

/// Emitting a well-formed formula item never touches the numbering
/// counter: only premises do.
pub proof fn lemma_item_keeps_counter(n: NodeV, c: u16)
    requires
        wf_item(n),
    ensures
        emit_spec(n, c).1 == c,
    decreases n, 1nat,
{
    match n.kind {
        Rule::Neg => {
            lemma_item_keeps_counter(n.children[0], c);
        },
        Rule::Subexpr => {
            lemma_formula_keeps_counter(n.children[0], c);
        },
        Rule::Func => {
            assert(crate::grammar::wf_arglist(n.children[1]));
            lemma_arglist_keeps_counter(n.children[1].children, 0, c, Seq::empty());
            let c2 = emit_list_spec(n.children[1].children, 0, c, Seq::empty()).1;
            lemma_item_keeps_counter(n.children[0], c2);
        },
        _ => {},
    }
}

/// Emitting a well-formed grouping node keeps the counter.
pub proof fn lemma_formula_keeps_counter(n: NodeV, c: u16)
    requires
        wf_formula(n),
    ensures
        emit_spec(n, c).1 == c,
    decreases n, 0nat,
{
    lemma_concat_keeps_counter(n.children, 0, c, Seq::empty());
}

/// Concatenating well-formed items keeps the counter.
pub proof fn lemma_concat_keeps_counter(s: Seq<NodeV>, i: int, c: u16, acc: Seq<char>)
    requires
        forall|j: int| 0 <= j < s.len() ==> wf_item(#[trigger] s[j]),
    ensures
        emit_concat_spec(s, i, c, acc).1 == c,
    decreases s, s.len() - i,
{
    if 0 <= i < s.len() {
        lemma_item_keeps_counter(s[i], c);
        match emit_spec(s[i], c) {
            (Ok(t), c2) => {
                lemma_concat_keeps_counter(s, i + 1, c2, acc + t);
            },
            (Err(_), _) => {},
        }
    }
}

/// Emitting an argument list of well-formed formulas keeps the
/// counter.
pub proof fn lemma_arglist_keeps_counter(s: Seq<NodeV>, i: int, c: u16, parts: Seq<Seq<char>>)
    requires
        forall|j: int| 0 <= j < s.len() ==> wf_formula(#[trigger] s[j]),
    ensures
        emit_list_spec(s, i, c, parts).1 == c,
    decreases s, s.len() - i,
{
    if 0 <= i < s.len() {
        lemma_formula_keeps_counter(s[i], c);
        match emit_spec(s[i], c) {
            (Ok(t), c2) => {
                lemma_arglist_keeps_counter(s, i + 1, c2, parts.push(t));
            },
            (Err(_), _) => {},
        }
    }
}

/// The numbering discipline over a run of body nodes: every premise
/// carries exactly the next number, counting from 1 and restarting
/// after each conclusion.
pub open spec fn numbering_ok(s: Seq<NodeV>, i: int, c: u16) -> bool
    decreases s.len() - i,
{
    if i < 0 || i >= s.len() {
        true
    } else if s[i].kind == Rule::Arg {
        c < 65535 && parse_num_spec(s[i].children[0].text) == Some((c + 1) as u16)
            && numbering_ok(s, i + 1, (c + 1) as u16)
    } else if s[i].kind == Rule::Conclusion {
        numbering_ok(s, i + 1, 0)
    } else {
        numbering_ok(s, i + 1, c)
    }
}

/// Law: a document that assembles successfully has its premises
/// numbered consecutively from 1 within each section, with no gap
/// and no reordering; a premise whose number differs from the
/// expected one makes the whole walk fail.
pub proof fn lemma_premise_numbering(
    s: Seq<NodeV>,
    i: int,
    c: u16,
    cur: SectionV,
    acc: Seq<SectionV>,
)
    requires
        sections_spec(s, i, c, cur, acc) is Ok,
        forall|j: int| i <= j < s.len() ==> wf_body_node(#[trigger] s[j]),
    ensures
        numbering_ok(s, i, c),
    decreases s.len() - i,
{
    if 0 <= i < s.len() {
        let n = s[i];
        if n.kind == Rule::Arg {
            let (res, c2) = emit_spec(n, c);
            assert(res is Ok);
            let num = parse_num_spec(n.children[0].text)->0;
            assert(num == c + 1);
            lemma_formula_keeps_counter(n.children[1], num);
            if n.children.len() == 3 {
                let cf = emit_spec(n.children[1], num).1;
                lemma_formula_keeps_counter(n.children[2], cf);
            }
            assert(c2 == (c + 1) as u16);
            let cur2 = SectionV {
                label: cur.label,
                args: cur.args.push(res->Ok_0),
                conclusion: cur.conclusion,
            };
            lemma_premise_numbering(s, i + 1, c2, cur2, acc);
        } else if n.kind == Rule::Conclusion {
            let (res, _) = emit_spec(n, c);
            assert(res is Ok);
            lemma_premise_numbering(
                s,
                i + 1,
                0,
                empty_section(),
                acc.push(
                    SectionV { label: cur.label, args: cur.args, conclusion: res->Ok_0 },
                ),
            );
        } else {
            assert(wf_label(n));
            lemma_premise_numbering(
                s,
                i + 1,
                c,
                SectionV { label: n.text, args: cur.args, conclusion: cur.conclusion },
                acc,
            );
        }
    }
}

/// How many conclusion nodes stand in `s[i..]`.
pub open spec fn count_conclusions(s: Seq<NodeV>, i: int) -> int
    decreases s.len() - i,
{
    if i < 0 || i >= s.len() {
        0
    } else {
        (if s[i].kind == Rule::Conclusion {
            1int
        } else {
            0int
        }) + count_conclusions(s, i + 1)
    }
}

/// Whether a premise is still open when the walk over `s[i..]` ends:
/// a premise opens one, a conclusion closes it, a label changes
/// nothing.
pub open spec fn pending_at_end(s: Seq<NodeV>, i: int, pending: bool) -> bool
    decreases s.len() - i,
{
    if i < 0 || i >= s.len() {
        pending
    } else if s[i].kind == Rule::Arg {
        pending_at_end(s, i + 1, true)
    } else if s[i].kind == Rule::Conclusion {
        pending_at_end(s, i + 1, false)
    } else {
        pending_at_end(s, i + 1, pending)
    }
}

/// Law: the assembled document holds one section per conclusion,
/// plus one trailing section exactly when premises follow the last
/// conclusion; in particular a label with no premises after it
/// contributes no section, while a section ending in premises with
/// no conclusion is still included.
pub proof fn lemma_section_count(
    s: Seq<NodeV>,
    i: int,
    c: u16,
    cur: SectionV,
    acc: Seq<SectionV>,
    r: Seq<SectionV>,
)
    requires
        sections_spec(s, i, c, cur, acc) == Ok::<Seq<SectionV>, Error>(r),
    ensures
        r.len() == acc.len() + count_conclusions(s, i) + (if pending_at_end(
            s,
            i,
            cur.args.len() > 0,
        ) {
            1int
        } else {
            0int
        }),
    decreases s.len() - i,
{
    if 0 <= i < s.len() {
        let n = s[i];
        match n.kind {
            Rule::Label => {
                lemma_section_count(
                    s,
                    i + 1,
                    c,
                    SectionV { label: n.text, args: cur.args, conclusion: cur.conclusion },
                    acc,
                    r,
                );
            },
            Rule::Arg => {
                let (res, c2) = emit_spec(n, c);
                lemma_section_count(
                    s,
                    i + 1,
                    c2,
                    SectionV {
                        label: cur.label,
                        args: cur.args.push(res->Ok_0),
                        conclusion: cur.conclusion,
                    },
                    acc,
                    r,
                );
            },
            Rule::Conclusion => {
                let (res, _) = emit_spec(n, c);
                lemma_section_count(
                    s,
                    i + 1,
                    0,
                    empty_section(),
                    acc.push(
                        SectionV { label: cur.label, args: cur.args, conclusion: res->Ok_0 },
                    ),
                    r,
                );
            },
            _ => {},
        }
    }
}

/// A value once taken survives to the end of a successful walk over
/// the header lines.
pub proof fn lemma_header_keys_stable(
    s: Seq<NodeV>,
    i: int,
    t: Option<Seq<char>>,
    d: Option<Seq<char>>,
    a: Option<Seq<char>>,
    res: (Option<Seq<char>>, Option<Seq<char>>, Option<Seq<char>>),
)
    requires
        header_lines_spec(s, i, t, d, a) == Ok::<_, Error>(res),
    ensures
        t is Some ==> res.0 == t,
        d is Some ==> res.1 == d,
        a is Some ==> res.2 == a,
    decreases s.len() - i,
{
    if 0 <= i < s.len() {
        let line = s[i];
        let key = line.children[0];
        let value = line.children[1];
        if key.text == "title"@ {
            lemma_header_keys_stable(s, i + 1, Some(trim_spec(value.text)), d, a, res);
        } else if key.text == "date"@ {
            lemma_header_keys_stable(s, i + 1, t, Some(trim_spec(value.text)), a, res);
        } else if key.text == "author"@ {
            lemma_header_keys_stable(s, i + 1, t, d, Some(trim_spec(value.text)), res);
        }
    }
}

/// Law: header extraction is order-independent, because each value
/// comes from its key's line wherever that line stands: a successful
/// walk returns, for every `title`, `date` or `author` line in it,
/// exactly that line's trimmed value.
pub proof fn lemma_header_value_source(
    s: Seq<NodeV>,
    i: int,
    t: Option<Seq<char>>,
    d: Option<Seq<char>>,
    a: Option<Seq<char>>,
    res: (Option<Seq<char>>, Option<Seq<char>>, Option<Seq<char>>),
    j: int,
)
    requires
        header_lines_spec(s, i, t, d, a) == Ok::<_, Error>(res),
        0 <= i <= j < s.len(),
    ensures
        s[j].children[0].text == "title"@ ==> res.0 == Some(trim_spec(s[j].children[1].text)),
        s[j].children[0].text == "date"@ ==> res.1 == Some(trim_spec(s[j].children[1].text)),
        s[j].children[0].text == "author"@ ==> res.2 == Some(trim_spec(s[j].children[1].text)),
    decreases j - i,
{
    reveal_strlit("title");
    reveal_strlit("date");
    reveal_strlit("author");
    assert("title"@.len() == 5 && "date"@.len() == 4 && "author"@.len() == 6);
    let line = s[i];
    let key = line.children[0];
    let value = line.children[1];
    if i == j {
        if key.text == "title"@ {
            lemma_header_keys_stable(s, i + 1, Some(trim_spec(value.text)), d, a, res);
        } else if key.text == "date"@ {
            lemma_header_keys_stable(s, i + 1, t, Some(trim_spec(value.text)), a, res);
        } else if key.text == "author"@ {
            lemma_header_keys_stable(s, i + 1, t, d, Some(trim_spec(value.text)), res);
        }
    } else {
        if key.text == "title"@ {
            lemma_header_value_source(s, i + 1, Some(trim_spec(value.text)), d, a, res, j);
        } else if key.text == "date"@ {
            lemma_header_value_source(s, i + 1, t, Some(trim_spec(value.text)), a, res, j);
        } else if key.text == "author"@ {
            lemma_header_value_source(s, i + 1, t, d, Some(trim_spec(value.text)), res, j);
        }
    }
}

/// Once a key holds a value, any later line with that same key makes
/// the walk fail.
pub proof fn lemma_key_taken_fails(
    s: Seq<NodeV>,
    i: int,
    t: Option<Seq<char>>,
    d: Option<Seq<char>>,
    a: Option<Seq<char>>,
    k: int,
)
    requires
        0 <= i <= k < s.len(),
        (s[k].children[0].text == "title"@ && t is Some) || (s[k].children[0].text == "date"@
            && d is Some) || (s[k].children[0].text == "author"@ && a is Some),
    ensures
        !(header_lines_spec(s, i, t, d, a) is Ok),
    decreases k - i,
{
    reveal_strlit("title");
    reveal_strlit("date");
    reveal_strlit("author");
    assert("title"@.len() == 5 && "date"@.len() == 4 && "author"@.len() == 6);
    let line = s[i];
    let key = line.children[0];
    let value = line.children[1];
    if i < k {
        if key.text == "title"@ && t is None {
            lemma_key_taken_fails(s, i + 1, Some(trim_spec(value.text)), d, a, k);
        } else if key.text == "date"@ && d is None {
            lemma_key_taken_fails(s, i + 1, t, Some(trim_spec(value.text)), a, k);
        } else if key.text == "author"@ && a is None {
            lemma_key_taken_fails(s, i + 1, t, d, Some(trim_spec(value.text)), k);
        } else if (key.text == "title"@ || key.text == "date"@ || key.text == "author"@)
            && !(line.kind != Rule::HeaderLine || line.children.len() != 2) {
            lemma_key_taken_fails(s, i + 1, t, d, a, k);
        }
    }
}

/// Law: supplying any configuration key twice always makes the
/// header fail, whatever stands around it.
pub proof fn lemma_duplicate_key_fails(
    s: Seq<NodeV>,
    i: int,
    t: Option<Seq<char>>,
    d: Option<Seq<char>>,
    a: Option<Seq<char>>,
    j: int,
    k: int,
)
    requires
        0 <= i <= j < k < s.len(),
        s[j].children[0].text == s[k].children[0].text,
        s[j].children[0].text == "title"@ || s[j].children[0].text == "date"@
            || s[j].children[0].text == "author"@,
    ensures
        !(header_lines_spec(s, i, t, d, a) is Ok),
    decreases j - i,
{
    reveal_strlit("title");
    reveal_strlit("date");
    reveal_strlit("author");
    assert("title"@.len() == 5 && "date"@.len() == 4 && "author"@.len() == 6);
    let line = s[i];
    let key = line.children[0];
    let value = line.children[1];
    if i == j {
        if line.kind == Rule::HeaderLine && line.children.len() == 2 {
            if key.text == "title"@ && t is None {
                lemma_key_taken_fails(s, i + 1, Some(trim_spec(value.text)), d, a, k);
            } else if key.text == "date"@ && d is None {
                lemma_key_taken_fails(s, i + 1, t, Some(trim_spec(value.text)), a, k);
            } else if key.text == "author"@ && a is None {
                lemma_key_taken_fails(s, i + 1, t, d, Some(trim_spec(value.text)), k);
            }
        }
    } else {
        if key.text == "title"@ && t is None {
            lemma_duplicate_key_fails(s, i + 1, Some(trim_spec(value.text)), d, a, j, k);
        } else if key.text == "date"@ && d is None {
            lemma_duplicate_key_fails(s, i + 1, t, Some(trim_spec(value.text)), a, j, k);
        } else if key.text == "author"@ && a is None {
            lemma_duplicate_key_fails(s, i + 1, t, d, Some(trim_spec(value.text)), j, k);
        } else if (key.text == "title"@ || key.text == "date"@ || key.text == "author"@)
            && !(line.kind != Rule::HeaderLine || line.children.len() != 2) {
            lemma_duplicate_key_fails(s, i + 1, t, d, a, j, k);
        }
    }
}

/// Law: a line whose key is none of `title`, `date`, `author` always
/// makes the header fail.
pub proof fn lemma_unknown_key_fails(
    s: Seq<NodeV>,
    i: int,
    t: Option<Seq<char>>,
    d: Option<Seq<char>>,
    a: Option<Seq<char>>,
    k: int,
)
    requires
        0 <= i <= k < s.len(),
        s[k].children[0].text != "title"@,
        s[k].children[0].text != "date"@,
        s[k].children[0].text != "author"@,
    ensures
        !(header_lines_spec(s, i, t, d, a) is Ok),
    decreases k - i,
{
    reveal_strlit("title");
    reveal_strlit("date");
    reveal_strlit("author");
    assert("title"@.len() == 5 && "date"@.len() == 4 && "author"@.len() == 6);
    let line = s[i];
    let key = line.children[0];
    let value = line.children[1];
    if i < k {
        if key.text == "title"@ && t is None {
            lemma_unknown_key_fails(s, i + 1, Some(trim_spec(value.text)), d, a, k);
        } else if key.text == "date"@ && d is None {
            lemma_unknown_key_fails(s, i + 1, t, Some(trim_spec(value.text)), a, k);
        } else if key.text == "author"@ && a is None {
            lemma_unknown_key_fails(s, i + 1, t, d, Some(trim_spec(value.text)), k);
        } else if (key.text == "title"@ || key.text == "date"@ || key.text == "author"@)
            && !(line.kind != Rule::HeaderLine || line.children.len() != 2) {
            lemma_unknown_key_fails(s, i + 1, t, d, a, k);
        }
    }
}

/// Law: a header label other than the literal `config` fails with
/// exactly the bad-label error at the token's span.
pub proof fn lemma_bad_header_label(n: NodeV)
    requires
        n.kind == Rule::Header,
        n.children.len() >= 1,
        n.children[0].children.len() == 1,
        n.children[0].children[0].text != "config"@,
    ensures
        header_spec(n) == Err::<HeaderV, Error>(
            Error {
                kind: ErrorKind::BadHeaderLabel,
                start: n.children[0].children[0].start as usize,
                end: n.children[0].children[0].end as usize,
            },
        ),
{
}

/// Law: a header whose walk leaves any key unfilled fails with a
/// missing-key error naming the first absent key.
pub proof fn lemma_missing_key_fails(
    n: NodeV,
    res: (Option<Seq<char>>, Option<Seq<char>>, Option<Seq<char>>),
)
    requires
        n.kind == Rule::Header,
        n.children.len() >= 1,
        n.children[0].children.len() == 1,
        n.children[0].children[0].text == "config"@,
        header_lines_spec(n.children, 1, None, None, None) == Ok::<_, Error>(res),
        res.0 is None || res.1 is None || res.2 is None,
    ensures
        header_spec(n) is Err,
        header_spec(n)->Err_0.kind is MissingKey,
{
}

/// Well-formed formula items always emit: the grammar's output never
/// trips the emitter's internal-invariant or arity checks.
pub proof fn lemma_item_emits(n: NodeV, c: u16)
    requires
        wf_item(n),
    ensures
        emit_spec(n, c).0 is Ok,
    decreases n, 1nat,
{
    match n.kind {
        Rule::Neg => {
            lemma_item_emits(n.children[0], c);
        },
        Rule::Subexpr => {
            lemma_formula_emits(n.children[0], c);
        },
        Rule::Func => {
            assert(crate::grammar::wf_arglist(n.children[1]));
            lemma_arglist_emits(n.children[1].children, 0, c, Seq::empty());
            let c2 = emit_list_spec(n.children[1].children, 0, c, Seq::empty()).1;
            lemma_item_emits(n.children[0], c2);
        },
        _ => {},
    }
}

/// Well-formed grouping nodes always emit.
pub proof fn lemma_formula_emits(n: NodeV, c: u16)
    requires
        wf_formula(n),
    ensures
        emit_spec(n, c).0 is Ok,
    decreases n, 0nat,
{
    lemma_concat_emits(n.children, 0, c, Seq::empty());
}

/// Concatenating well-formed items always succeeds.
pub proof fn lemma_concat_emits(s: Seq<NodeV>, i: int, c: u16, acc: Seq<char>)
    requires
        forall|j: int| 0 <= j < s.len() ==> wf_item(#[trigger] s[j]),
    ensures
        emit_concat_spec(s, i, c, acc).0 is Ok,
    decreases s, s.len() - i,
{
    if 0 <= i < s.len() {
        lemma_item_emits(s[i], c);
        let (res, c2) = emit_spec(s[i], c);
        lemma_concat_emits(s, i + 1, c2, acc + res->Ok_0);
    }
}

/// Emitting well-formed argument formulas always succeeds.
pub proof fn lemma_arglist_emits(s: Seq<NodeV>, i: int, c: u16, parts: Seq<Seq<char>>)
    requires
        forall|j: int| 0 <= j < s.len() ==> wf_formula(#[trigger] s[j]),
    ensures
        emit_list_spec(s, i, c, parts).0 is Ok,
    decreases s, s.len() - i,
{
    if 0 <= i < s.len() {
        lemma_formula_emits(s[i], c);
        let (res, c2) = emit_spec(s[i], c);
        lemma_arglist_emits(s, i + 1, c2, parts.push(res->Ok_0));
    }
}

/// Law: on a well-formed premise the emitter owes success exactly
/// when the declared number parses as the next expected one; the two
/// possible failures are the number-parse error at the token's span
/// and the sequence mismatch naming expected and actual.
pub proof fn lemma_arg_emits(n: NodeV, c: u16)
    requires
        wf_arg(n),
        c < 65535,
    ensures
        parse_num_spec(n.children[0].text) == Some((c + 1) as u16) ==> emit_spec(n, c).0 is Ok
            && emit_spec(n, c).1 == c + 1,
        parse_num_spec(n.children[0].text) is None ==> emit_spec(n, c).0 == Err::<Seq<char>, Error>(
            Error {
                kind: ErrorKind::BadNumber,
                start: n.children[0].start as usize,
                end: n.children[0].end as usize,
            },
        ),
        forall|m: u16|
            parse_num_spec(n.children[0].text) == Some(m) && m != c + 1 ==> emit_spec(n, c).0
                == Err::<Seq<char>, Error>(
                Error {
                    kind: ErrorKind::SeqMismatch { expected: (c + 1) as u32, actual: m },
                    start: n.start as usize,
                    end: n.end as usize,
                },
            ),
    decreases n,
{
    if parse_num_spec(n.children[0].text) == Some((c + 1) as u16) {
        let num = (c + 1) as u16;
        lemma_formula_emits(n.children[1], num);
        lemma_formula_keeps_counter(n.children[1], num);
        let cf = emit_spec(n.children[1], num).1;
        if n.children.len() == 3 {
            lemma_formula_emits(n.children[2], cf);
            lemma_formula_keeps_counter(n.children[2], cf);
        }
    }
}

/// Well-formed conclusions always emit.
pub proof fn lemma_conclusion_emits(n: NodeV, c: u16)
    requires
        wf_conclusion(n),
    ensures
        emit_spec(n, c).0 is Ok,
{
    lemma_formula_emits(n.children[0], c);
}

/// A filled title slot traces back to a `title` line in the walked
/// range.
proof fn lemma_title_has_source(
    s: Seq<NodeV>,
    i: int,
    d: Option<Seq<char>>,
    a: Option<Seq<char>>,
    res: (Option<Seq<char>>, Option<Seq<char>>, Option<Seq<char>>),
)
    requires
        0 <= i,
        header_lines_spec(s, i, None, d, a) == Ok::<_, Error>(res),
        res.0 is Some,
    ensures
        exists|j: int| i <= j < s.len() && (#[trigger] s[j]).children[0].text == "title"@,
    decreases s.len() - i,
{
    if i < s.len() {
        let line = s[i];
        let key = line.children[0];
        let value = line.children[1];
        if key.text == "title"@ {
            assert(i <= i < s.len() && s[i].children[0].text == "title"@);
        } else if key.text == "date"@ && d is None {
            lemma_title_has_source(s, i + 1, Some(trim_spec(value.text)), a, res);
        } else if key.text == "author"@ && a is None {
            lemma_title_has_source(s, i + 1, d, Some(trim_spec(value.text)), res);
        } else if key.text == "date"@ || key.text == "author"@ {
            lemma_title_has_source(s, i + 1, d, a, res);
        }
    }
}


/// A filled date slot traces back to a `date` line in the walked
/// range.
proof fn lemma_date_has_source(
    s: Seq<NodeV>,
    i: int,
    t: Option<Seq<char>>,
    a: Option<Seq<char>>,
    res: (Option<Seq<char>>, Option<Seq<char>>, Option<Seq<char>>),
)
    requires
        0 <= i,
        header_lines_spec(s, i, t, None, a) == Ok::<_, Error>(res),
        res.1 is Some,
    ensures
        exists|j: int| i <= j < s.len() && (#[trigger] s[j]).children[0].text == "date"@,
    decreases s.len() - i,
{
    if i < s.len() {
        let line = s[i];
        let key = line.children[0];
        let value = line.children[1];
        if key.text == "date"@ {
            assert(i <= i < s.len() && s[i].children[0].text == "date"@);
        } else if key.text == "title"@ && t is None {
            lemma_date_has_source(s, i + 1, Some(trim_spec(value.text)), a, res);
        } else if key.text == "author"@ && a is None {
            lemma_date_has_source(s, i + 1, t, Some(trim_spec(value.text)), res);
        } else if key.text == "title"@ || key.text == "author"@ {
            lemma_date_has_source(s, i + 1, t, a, res);
        }
    }
}

/// A filled author slot traces back to an `author` line in the
/// walked range.
proof fn lemma_author_has_source(
    s: Seq<NodeV>,
    i: int,
    t: Option<Seq<char>>,
    d: Option<Seq<char>>,
    res: (Option<Seq<char>>, Option<Seq<char>>, Option<Seq<char>>),
)
    requires
        0 <= i,
        header_lines_spec(s, i, t, d, None) == Ok::<_, Error>(res),
        res.2 is Some,
    ensures
        exists|j: int| i <= j < s.len() && (#[trigger] s[j]).children[0].text == "author"@,
    decreases s.len() - i,
{
    if i < s.len() {
        let line = s[i];
        let key = line.children[0];
        let value = line.children[1];
        if key.text == "author"@ {
            assert(i <= i < s.len() && s[i].children[0].text == "author"@);
        } else if key.text == "title"@ && t is None {
            lemma_author_has_source(s, i + 1, Some(trim_spec(value.text)), d, res);
        } else if key.text == "date"@ && d is None {
            lemma_author_has_source(s, i + 1, t, Some(trim_spec(value.text)), res);
        } else if key.text == "title"@ || key.text == "date"@ {
            lemma_author_has_source(s, i + 1, t, d, res);
        }
    }
}

/// Law: header extraction is order-independent: two headers whose
/// `key: value` lines are the same lines in any order extract
/// identical metadata.
pub proof fn lemma_header_order_irrelevant(n1: NodeV, n2: NodeV, h1: HeaderV, h2: HeaderV)
    requires
        header_spec(n1) == Ok::<HeaderV, Error>(h1),
        header_spec(n2) == Ok::<HeaderV, Error>(h2),
        n1.children.skip(1).to_multiset() == n2.children.skip(1).to_multiset(),
    ensures
        h1.title == h2.title,
        h1.date == h2.date,
        h1.author == h2.author,
{
    broadcast use vstd::seq_lib::group_to_multiset_ensures;

    let s1 = n1.children;
    let s2 = n2.children;
    let res1 = header_lines_spec(s1, 1, None, None, None)->Ok_0;
    let res2 = header_lines_spec(s2, 1, None, None, None)->Ok_0;
    lemma_title_has_source(s1, 1, None, None, res1);
    let j1 = choose|j: int| 1 <= j < s1.len() && (#[trigger] s1[j]).children[0].text == "title"@;
    let line = s1[j1];
    assert(s1.skip(1)[j1 - 1] == line);
    assert(s1.skip(1).contains(line));
    assert(s2.skip(1).to_multiset().count(line) > 0);
    assert(s2.skip(1).contains(line));
    let jx = choose|j: int| 0 <= j < s2.skip(1).len() && s2.skip(1)[j] == line;
    let j2 = jx + 1;
    assert(s2[j2] == line);
    lemma_header_value_source(s1, 1, None, None, None, res1, j1);
    lemma_header_value_source(s2, 1, None, None, None, res2, j2);
    assert(res1.0 == Some(trim_spec(line.children[1].text)));
    assert(res2.0 == Some(trim_spec(line.children[1].text)));
    lemma_date_has_source(s1, 1, None, None, res1);
    let jd1 = choose|j: int| 1 <= j < s1.len() && (#[trigger] s1[j]).children[0].text == "date"@;
    let dline = s1[jd1];
    assert(s1.skip(1)[jd1 - 1] == dline);
    assert(s1.skip(1).contains(dline));
    assert(s2.skip(1).to_multiset().count(dline) > 0);
    assert(s2.skip(1).contains(dline));
    let jdx = choose|j: int| 0 <= j < s2.skip(1).len() && s2.skip(1)[j] == dline;
    assert(s2[jdx + 1] == dline);
    lemma_header_value_source(s1, 1, None, None, None, res1, jd1);
    lemma_header_value_source(s2, 1, None, None, None, res2, jdx + 1);
    lemma_author_has_source(s1, 1, None, None, res1);
    let ja1 = choose|j: int|
        1 <= j < s1.len() && (#[trigger] s1[j]).children[0].text == "author"@;
    let aline = s1[ja1];
    assert(s1.skip(1)[ja1 - 1] == aline);
    assert(s1.skip(1).contains(aline));
    assert(s2.skip(1).to_multiset().count(aline) > 0);
    assert(s2.skip(1).contains(aline));
    let jax = choose|j: int| 0 <= j < s2.skip(1).len() && s2.skip(1)[j] == aline;
    assert(s2[jax + 1] == aline);
    lemma_header_value_source(s1, 1, None, None, None, res1, ja1);
    lemma_header_value_source(s2, 1, None, None, None, res2, jax + 1);
}

/// Law, converse direction: the numbering discipline is also
/// sufficient: a run of well-formed body nodes whose premises are
/// numbered consecutively from 1 per section always assembles.
/// Together with [`lemma_premise_numbering`] this makes correct
/// numbering exactly the condition for success.
pub proof fn lemma_numbering_sufficient(
    s: Seq<NodeV>,
    i: int,
    c: u16,
    cur: SectionV,
    acc: Seq<SectionV>,
)
    requires
        forall|j: int| i <= j < s.len() ==> wf_body_node(#[trigger] s[j]),
        numbering_ok(s, i, c),
    ensures
        sections_spec(s, i, c, cur, acc) is Ok,
    decreases s.len() - i,
{
    if 0 <= i < s.len() {
        let n = s[i];
        if n.kind == Rule::Arg {
            lemma_arg_emits(n, c);
            let (res, c2) = emit_spec(n, c);
            lemma_numbering_sufficient(
                s,
                i + 1,
                (c + 1) as u16,
                SectionV {
                    label: cur.label,
                    args: cur.args.push(res->Ok_0),
                    conclusion: cur.conclusion,
                },
                acc,
            );
        } else if n.kind == Rule::Conclusion {
            lemma_conclusion_emits(n, c);
            let (res, _) = emit_spec(n, c);
            lemma_numbering_sufficient(
                s,
                i + 1,
                0,
                empty_section(),
                acc.push(
                    SectionV { label: cur.label, args: cur.args, conclusion: res->Ok_0 },
                ),
            );
        } else {
            assert(wf_label(n));
            lemma_numbering_sufficient(
                s,
                i + 1,
                c,
                SectionV { label: n.text, args: cur.args, conclusion: cur.conclusion },
                acc,
            );
        }
    }
}

/// Law: a section of exactly two premises numbered 1 and 2 and a
/// conclusion, all well formed, assembles into exactly one section:
/// the two premise fragments in source order and the conclusion
/// fragment, under an empty label.
pub proof fn lemma_two_premises_one_conclusion(
    s: Seq<NodeV>,
    i: int,
    a1: NodeV,
    a2: NodeV,
    k: NodeV,
)
    requires
        0 <= i,
        i + 3 == s.len(),
        s[i] == a1,
        s[i + 1] == a2,
        s[i + 2] == k,
        wf_arg(a1),
        wf_arg(a2),
        wf_conclusion(k),
        parse_num_spec(a1.children[0].text) == Some(1u16),
        parse_num_spec(a2.children[0].text) == Some(2u16),
    ensures
        ({
            let f1 = emit_spec(a1, 0).0->Ok_0;
            let f2 = emit_spec(a2, 1).0->Ok_0;
            let fc = emit_spec(k, 2).0->Ok_0;
            sections_spec(s, i, 0, empty_section(), Seq::empty()) == Ok::<Seq<SectionV>, Error>(
                seq![SectionV { label: Seq::empty(), args: seq![f1, f2], conclusion: fc }],
            )
        }),
{
    lemma_arg_emits(a1, 0);
    lemma_arg_emits(a2, 1);
    lemma_conclusion_emits(k, 2);
    let f1 = emit_spec(a1, 0).0->Ok_0;
    let f2 = emit_spec(a2, 1).0->Ok_0;
    let fc = emit_spec(k, 2).0->Ok_0;
    let sec = SectionV { label: Seq::empty(), args: seq![f1, f2], conclusion: fc };
    reveal_with_fuel(sections_spec, 5);
    assert(empty_section().args.push(f1).push(f2) =~= seq![f1, f2]);
    assert((SectionV {
        label: empty_section().label,
        args: empty_section().args.push(f1).push(f2),
        conclusion: fc,
    }) == sec);
    assert(Seq::<SectionV>::empty().push(sec) =~= seq![sec]);
    assert(sections_spec(s, i + 3, 0, empty_section(), seq![sec]) == Ok::<Seq<SectionV>, Error>(
        seq![sec],
    ));
}

} // verus!
