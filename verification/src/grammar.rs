use vstd::prelude::*;

use crate::emit::{all_digits, is_digit};
use crate::error::{custom_error, Error, ErrorKind, Expected};
use crate::header::{is_space, is_space_char, trim_spec, trim_vec};
use crate::text::subvec;
use crate::tree::{lemma_node_view, Node, NodeV, Rule};

verus! {

/// Well-formed formula item: the kinds and arities the grammar
/// produces inside a formula, with the exact operator tokens.
pub open spec fn wf_item(n: NodeV) -> bool
    decreases n, 1nat,
{
    match n.kind {
        Rule::Existencial => (n.text == "@"@ || n.text == "&"@) && n.children.len() == 0,
        Rule::Bioperator => (n.text == "->"@ || n.text == "^"@ || n.text == "V"@ || n.text
            == "v"@) && n.children.len() == 0,
        Rule::Operand => n.text.len() > 0 && n.children.len() == 0,
        Rule::LineExt => n.children.len() == 0,
        Rule::Neg => n.children.len() == 1 && wf_item(n.children[0]),
        Rule::Subexpr => n.children.len() == 1 && wf_formula(n.children[0]),
        Rule::Func => n.children.len() == 2 && n.children[0].kind == Rule::Operand && wf_item(
            n.children[0],
        ) && wf_arglist(n.children[1]),
        _ => false,
    }
}

/// Well-formed grouping node: every child is a well-formed item.
pub open spec fn wf_formula(n: NodeV) -> bool
    decreases n, 0nat,
{
    n.kind == Rule::Formula && (forall|i: int|
        0 <= i < n.children.len() ==> wf_item(#[trigger] n.children[i]))
}

/// Well-formed argument list of a predicate application.
pub open spec fn wf_arglist(n: NodeV) -> bool
    decreases n, 0nat,
{
    n.kind == Rule::ArgList && (forall|i: int|
        0 <= i < n.children.len() ==> wf_formula(#[trigger] n.children[i]))
}

/// Well-formed premise node: a non-empty digit token, a formula, and
/// at most one justification formula.
pub open spec fn wf_arg(n: NodeV) -> bool {
    &&& n.kind == Rule::Arg
    &&& (n.children.len() == 2 || n.children.len() == 3)
    &&& n.children[0].kind == Rule::Number
    &&& n.children[0].text.len() > 0
    &&& all_digits(n.children[0].text)
    &&& n.children[0].children.len() == 0
    &&& wf_formula(n.children[1])
    &&& (n.children.len() == 3 ==> wf_formula(n.children[2]))
}

/// Well-formed conclusion node: exactly one formula.
pub open spec fn wf_conclusion(n: NodeV) -> bool {
    n.kind == Rule::Conclusion && n.children.len() == 1 && wf_formula(n.children[0])
}

/// Well-formed label node: one bare word token.
pub open spec fn wf_label(n: NodeV) -> bool {
    n.kind == Rule::Label && n.children.len() == 1 && n.children[0].kind == Rule::Word
        && n.children[0].children.len() == 0
}

/// Well-formed `key: value` entry.
pub open spec fn wf_header_line(n: NodeV) -> bool {
    &&& n.kind == Rule::HeaderLine
    &&& n.children.len() == 2
    &&& n.children[0].kind == Rule::HeaderKey
    &&& n.children[0].children.len() == 0
    &&& n.children[1].kind == Rule::HeaderValue
    &&& n.children[1].children.len() == 0
}

/// Well-formed configuration block: a label, then `key: value` lines.
pub open spec fn wf_header(n: NodeV) -> bool {
    &&& n.kind == Rule::Header
    &&& n.children.len() >= 1
    &&& wf_label(n.children[0])
    &&& (forall|i: int| 1 <= i < n.children.len() ==> wf_header_line(#[trigger] n.children[i]))
}

/// Well-formed body node: what may follow the header at top level.
pub open spec fn wf_body_node(n: NodeV) -> bool {
    wf_label(n) || wf_arg(n) || wf_conclusion(n)
}

/// Well-formed document tree: the shape the grammar guarantees, a
/// header first and then labels, premises and conclusions.
pub open spec fn wf_root(n: NodeV) -> bool {
    &&& n.kind == Rule::Root
    &&& n.children.len() >= 1
    &&& wf_header(n.children[0])
    &&& (forall|i: int| 1 <= i < n.children.len() ==> wf_body_node(#[trigger] n.children[i]))
}

/// What a node's text must hold, given its span in the input: for
/// every token kind, exactly the input at that span (a label's,
/// trimmed); grouping kinds carry no text of their own.
pub open spec fn token_text_ok(n: NodeV, input: Seq<char>) -> bool {
    match n.kind {
        Rule::Existencial | Rule::Bioperator | Rule::Operand | Rule::Number | Rule::LineExt
            | Rule::HeaderKey | Rule::HeaderValue => n.text == input.subrange(n.start, n.end),
        Rule::Label | Rule::Word => n.text == trim_spec(input.subrange(n.start, n.end)),
        _ => true,
    }
}

/// The tree's content comes from the input and from nowhere else:
/// every node's span lies inside the input, every token's text is
/// the input at its span, recursively through all children.
pub open spec fn spans_ok(n: NodeV, input: Seq<char>) -> bool
    decreases n,
{
    &&& 0 <= n.start <= n.end <= input.len()
    &&& token_text_ok(n, input)
    &&& (forall|i: int| 0 <= i < n.children.len() ==> spans_ok(#[trigger] n.children[i], input))
}

/// A character that may stand in an operand or a key word.
pub open spec fn is_word_char(c: char) -> bool {
    ('a' <= c && c <= 'z') || ('A' <= c && c <= 'Z') || ('0' <= c && c <= '9') || c == '_'
}

/// A letter, as a header key starts with one.
pub open spec fn is_letter(c: char) -> bool {
    ('a' <= c && c <= 'z') || ('A' <= c && c <= 'Z')
}

fn is_word_char_c(c: char) -> (b: bool)
    ensures
        b == is_word_char(c),
{
    (c >= 'a' && c <= 'z') || (c >= 'A' && c <= 'Z') || (c >= '0' && c <= '9') || c == '_'
}

fn is_letter_c(c: char) -> (b: bool)
    ensures
        b == is_letter(c),
{
    (c >= 'a' && c <= 'z') || (c >= 'A' && c <= 'Z')
}

fn is_digit_c(c: char) -> (b: bool)
    ensures
        b == is_digit(c),
{
    c >= '0' && c <= '9'
}

/// The spans of the input's lines, split on newline characters.
#[verifier::loop_isolation(false)]
fn split_lines(input: &Vec<char>) -> (lines: Vec<(usize, usize)>)
    ensures
        forall|k: int|
            0 <= k < lines@.len() ==> (#[trigger] lines@[k]).0 <= lines@[k].1 <= input@.len(),
        lines@ == lines_of(input@),
{
    let mut lines: Vec<(usize, usize)> = Vec::new();
    let mut start: usize = 0;
    let mut i: usize = 0;
    assert(lines@ =~= Seq::<(usize, usize)>::empty());
    while i < input.len()
        invariant
            start <= i <= input@.len(),
            forall|k: int|
                0 <= k < lines@.len() ==> (#[trigger] lines@[k]).0 <= lines@[k].1 <= input@.len(),
            lines_of(input@) == lines_acc(input@, i as int, start, lines@),
        decreases input@.len() - i,
    {
        if input[i] == '\n' {
            lines.push((start, i));
            start = i + 1;
        }
        i = i + 1;
    }
    if start < input.len() {
        lines.push((start, input.len()));
    }
    lines
}

/// The position of the first non-blank character in `[lo, hi)`, or
/// `hi` if the range is all blank.
#[verifier::loop_isolation(false)]
fn first_nonspace(input: &Vec<char>, lo: usize, hi: usize) -> (p: usize)
    requires
        lo <= hi <= input@.len(),
    ensures
        lo <= p <= hi,
        p < hi ==> !is_space(input@[p as int]),
        p == skip_ws(input@, lo as int, hi as int),
{
    let mut p = lo;
    while p < hi && is_space_char(input[p])
        invariant
            lo <= p <= hi,
            skip_ws(input@, lo as int, hi as int) == skip_ws(input@, p as int, hi as int),
        decreases hi - p,
    {
        p = p + 1;
    }
    p
}

/// A one-character token node of the given kind.
fn char_token(kind: Rule, c: char, pos: usize) -> (n: Node)
    requires
        pos < usize::MAX,
    ensures
        n@.kind == kind,
        n@.text =~= seq![c],
        n@.children.len() == 0,
        n@.start == pos as int,
        n@.end == pos + 1,
{
    let mut text: Vec<char> = Vec::new();
    text.push(c);
    let n = Node { kind, text, start: pos, end: pos + 1, children: Vec::new() };
    proof {
        lemma_node_view(n);
        assert(n@.children =~= Seq::<NodeV>::empty());
    }
    n
}

/// A childless node holding a copy of `input[lo..hi]`.
fn span_token(kind: Rule, input: &Vec<char>, lo: usize, hi: usize) -> (n: Node)
    requires
        lo <= hi <= input@.len(),
    ensures
        n@.kind == kind,
        n@.text == input@.subrange(lo as int, hi as int),
        n@.children.len() == 0,
        n@.start == lo as int,
        n@.end == hi as int,
{
    let text = subvec(input, lo, hi);
    let n = Node { kind, text, start: lo, end: hi, children: Vec::new() };
    proof {
        lemma_node_view(n);
        assert(n@.children =~= Seq::<NodeV>::empty());
    }
    n
}

/// A syntax error at the span `start..end`, naming what the grammar
/// expected there.
fn syntax_error(expected: Expected, start: usize, end: usize) -> (e: Error)
    ensures
        e == (Error { kind: ErrorKind::Syntax { expected }, start, end }),
{
    custom_error(ErrorKind::Syntax { expected }, start, end)
}


/// The position of the first non-blank character at or after `pos`
/// in `[pos, end)`, or `end`.
pub open spec fn skip_ws(input: Seq<char>, pos: int, end: int) -> int
    decreases end - pos,
{
    if 0 <= pos && pos < end && is_space(input[pos]) {
        skip_ws(input, pos + 1, end)
    } else {
        pos
    }
}

/// The position just past the run of word characters at `pos`.
pub open spec fn word_scan_end(input: Seq<char>, pos: int, end: int) -> int
    decreases end - pos,
{
    if 0 <= pos && pos < end && is_word_char(input[pos]) {
        word_scan_end(input, pos + 1, end)
    } else {
        pos
    }
}

/// The position just past the run of digits at `pos`.
pub open spec fn digits_scan_end(input: Seq<char>, pos: int, end: int) -> int
    decreases end - pos,
{
    if 0 <= pos && pos < end && is_digit(input[pos]) {
        digits_scan_end(input, pos + 1, end)
    } else {
        pos
    }
}

/// The position of the first backtick at or after `pos`, or `end`.
pub open spec fn tick_scan_end(input: Seq<char>, pos: int, end: int) -> int
    decreases end - pos,
{
    if 0 <= pos && pos < end && input[pos] != '`' {
        tick_scan_end(input, pos + 1, end)
    } else {
        pos
    }
}

/// Where one formula item ends, if the grammar matches one at or
/// after `pos`: the item rule as a deterministic recognizer. (The
/// position guards only discharge termination; the executable parser
/// is proved equal to this function, so they never bite.)
pub open spec fn item_scan(input: Seq<char>, pos: int, end: int) -> Option<int>
    decreases end - pos, 0nat,
{
    let q = skip_ws(input, pos, end);
    if !(pos <= q && q < end) {
        None
    } else {
        let c = input[q];
        if c == '@' || c == '&' {
            Some(q + 1)
        } else if c == '~' {
            item_scan(input, q + 1, end)
        } else if c == '-' {
            if q + 1 < end && input[q + 1] == '>' {
                Some(q + 2)
            } else {
                None
            }
        } else if c == '^' {
            Some(q + 1)
        } else if c == '(' {
            match formula_scan(input, q + 1, end) {
                None => None,
                Some(p) => if p < end && input[p] == ')' {
                    Some(p + 1)
                } else {
                    None
                },
            }
        } else if c == '`' {
            let t = tick_scan_end(input, q + 1, end);
            if t < end {
                Some(t + 1)
            } else {
                None
            }
        } else if is_word_char(c) {
            let w = word_scan_end(input, q + 1, end);
            if w < end && input[w] == '(' {
                if q + 1 <= w {
                    arglist_scan(input, w + 1, end)
                } else {
                    None
                }
            } else {
                Some(w)
            }
        } else {
            None
        }
    }
}

/// Where a run of formula items ends: at the range's end or at a
/// delimiter the caller owns, with blanks consumed.
pub open spec fn formula_scan(input: Seq<char>, pos: int, end: int) -> Option<int>
    decreases end - pos, 1nat,
{
    let q = skip_ws(input, pos, end);
    if !(pos <= q && q <= end) {
        None
    } else if q >= end {
        Some(q)
    } else {
        let c = input[q];
        if c == ')' || c == ',' || c == ']' || c == '[' {
            Some(q)
        } else {
            match item_scan(input, q, end) {
                None => None,
                Some(p) => if q < p && p <= end {
                    formula_scan(input, p, end)
                } else {
                    None
                },
            }
        }
    }
}

/// Where the comma-separated formulas of a non-empty argument list
/// end, just past the closing parenthesis.
pub open spec fn arglist_items_scan(input: Seq<char>, pos: int, end: int) -> Option<int>
    decreases end - pos, 2nat,
{
    match formula_scan(input, pos, end) {
        None => None,
        Some(p) => if !(pos <= p && p < end) {
            None
        } else if input[p] == ',' {
            arglist_items_scan(input, p + 1, end)
        } else if input[p] == ')' {
            Some(p + 1)
        } else {
            None
        },
    }
}

/// Where an argument list ends, from just after its opening
/// parenthesis through the closing one.
pub open spec fn arglist_scan(input: Seq<char>, pos: int, end: int) -> Option<int>
    decreases end - pos, 3nat,
{
    let q0 = skip_ws(input, pos, end);
    if !(pos <= q0) {
        None
    } else if q0 < end && input[q0] == ')' {
        Some(q0 + 1)
    } else {
        arglist_items_scan(input, pos, end)
    }
}

/// Whether the line `[lo, hi)` has the `key: value` shape that
/// extends the header.
pub open spec fn header_line_at(input: Seq<char>, lo: int, hi: int) -> bool {
    let p = skip_ws(input, lo, hi);
    if !(lo <= p && p < hi && is_letter(input[p])) {
        false
    } else {
        let w = word_scan_end(input, p + 1, hi);
        let q = skip_ws(input, w, hi);
        q < hi && input[q] == ':'
    }
}

/// Whether a premise line parses, from its first digit at `p` to the
/// line's end: number, colon, formula, optional `[justification]`.
pub open spec fn arg_line_scan(input: Seq<char>, p: int, hi: int) -> bool {
    let d = digits_scan_end(input, p + 1, hi);
    let q = skip_ws(input, d, hi);
    if !(q < hi && input[q] == ':') {
        false
    } else {
        match formula_scan(input, q + 1, hi) {
            None => false,
            Some(fp) => if fp >= hi {
                true
            } else if input[fp] == '[' {
                match formula_scan(input, fp + 1, hi) {
                    None => false,
                    Some(jp) => jp < hi && input[jp] == ']' && skip_ws(input, jp + 1, hi) >= hi,
                }
            } else {
                false
            },
        }
    }
}

/// Whether a conclusion line parses, from its `|` at `p`: the `|-`
/// marker and one formula reaching the line's end.
pub open spec fn conclusion_line_scan(input: Seq<char>, p: int, hi: int) -> bool {
    if !(p + 1 < hi && input[p + 1] == '-') {
        false
    } else {
        match formula_scan(input, p + 2, hi) {
            None => false,
            Some(fp) => fp >= hi,
        }
    }
}

/// The input's line spans, accumulated left to right: what
/// `split_lines` computes.
pub open spec fn lines_acc(
    input: Seq<char>,
    i: int,
    start: usize,
    acc: Seq<(usize, usize)>,
) -> Seq<(usize, usize)>
    decreases input.len() - i,
{
    if i < 0 || i >= input.len() {
        if (start as int) < input.len() {
            acc.push((start, input.len() as usize))
        } else {
            acc
        }
    } else if input[i] == '\n' {
        lines_acc(input, i + 1, (i + 1) as usize, acc.push((start, i as usize)))
    } else {
        lines_acc(input, i + 1, start, acc)
    }
}

/// The input split into line spans at newline characters.
pub open spec fn lines_of(input: Seq<char>) -> Seq<(usize, usize)> {
    lines_acc(input, 0, 0, Seq::empty())
}

/// The index of the first line at or after `i` with a non-blank
/// character, or the line count.
pub open spec fn skip_blank_scan(input: Seq<char>, lines: Seq<(usize, usize)>, i: int) -> int
    decreases lines.len() - i,
{
    if !(0 <= i && i < lines.len()) {
        i
    } else if skip_ws(input, lines[i].0 as int, lines[i].1 as int) < lines[i].1 {
        i
    } else {
        skip_blank_scan(input, lines, i + 1)
    }
}

/// The index where the header's `key: value` lines stop, blanks
/// skipped: the first line of another shape, or the line count.
pub open spec fn header_end_scan(input: Seq<char>, lines: Seq<(usize, usize)>, li: int) -> int
    decreases lines.len() - li,
{
    let lj = skip_blank_scan(input, lines, li);
    if !(li <= lj && lj < lines.len()) {
        lines.len() as int
    } else if header_line_at(input, lines[lj].0 as int, lines[lj].1 as int) {
        header_end_scan(input, lines, lj + 1)
    } else {
        lj
    }
}

/// Whether every body line from `li` on parses: blank, label,
/// premise or conclusion.
pub open spec fn body_lines_ok(input: Seq<char>, lines: Seq<(usize, usize)>, li: int) -> bool
    decreases lines.len() - li,
{
    if !(0 <= li && li < lines.len()) {
        true
    } else {
        let lo = lines[li].0 as int;
        let hi = lines[li].1 as int;
        let p = skip_ws(input, lo, hi);
        let line_ok = if p >= hi {
            true
        } else if input[p] == '#' {
            true
        } else if is_digit(input[p]) {
            arg_line_scan(input, p, hi)
        } else if input[p] == '|' {
            conclusion_line_scan(input, p, hi)
        } else {
            false
        };
        line_ok && body_lines_ok(input, lines, li + 1)
    }
}

/// The grammar's root rule as a recognizer over the raw input: a
/// first significant `#` label line, then `key: value` header lines,
/// then label, premise and conclusion lines to the end. The
/// executable parser succeeds on exactly these inputs.
pub open spec fn document_scan(input: Seq<char>) -> bool {
    let lines = lines_of(input);
    let li0 = skip_blank_scan(input, lines, 0);
    if !(0 <= li0 && li0 < lines.len()) {
        false
    } else {
        let lo = lines[li0].0 as int;
        let hi = lines[li0].1 as int;
        let p = skip_ws(input, lo, hi);
        if !(p < hi && input[p] == '#') {
            false
        } else {
            body_lines_ok(input, lines, header_end_scan(input, lines, li0 + 1))
        }
    }
}

/// Parse one formula item at or after `pos`; returns the node and
/// the position just past it.
#[verifier::loop_isolation(false)]
fn parse_item(input: &Vec<char>, pos: usize, end: usize) -> (r: Result<(Node, usize), Error>)
    requires
        pos <= end <= input@.len(),
    ensures
        match r {
            Ok((n, p)) => wf_item(n@) && spans_ok(n@, input@) && pos < p && p <= end
                && item_scan(input@, pos as int, end as int) == Some(p as int),
            Err(e) => e.kind is Syntax && e.start <= e.end <= input@.len() && item_scan(
                input@,
                pos as int,
                end as int,
            ) is None,
        },
    decreases end - pos, 0nat,
{
    let q = first_nonspace(input, pos, end);
    if q >= end {
        return Err(syntax_error(Expected::Item, q, end));
    }
    let c = input[q];
    if c == '@' || c == '&' {
        let n = char_token(Rule::Existencial, c, q);
        proof {
            reveal_strlit("@");
            reveal_strlit("&");
            if c == '@' {
                assert(n@.text =~= "@"@);
            } else {
                assert(n@.text =~= "&"@);
            }
            assert(q < end <= input@.len());
            assert(input@.subrange(q as int, q as int + 1) =~= seq![input@[q as int]]);
            assert(spans_ok(n@, input@));
        }
        Ok((n, q + 1))
    } else if c == '~' {
        match parse_item(input, q + 1, end) {
            Err(e) => Err(e),
            Ok((sub, p)) => {
                let ghost subv = sub@;
                let mut children: Vec<Node> = Vec::new();
                children.push(sub);
                let n = Node { kind: Rule::Neg, text: Vec::new(), start: q, end: p, children };
                proof {
                    lemma_node_view(n);
                    assert(n@.children[0] == subv);
                    assert(spans_ok(n@, input@));
                }
                Ok((n, p))
            },
        }
    } else if c == '-' {
        if q + 1 < end && input[q + 1] == '>' {
            let n = span_token(Rule::Bioperator, input, q, q + 2);
            proof {
                reveal_strlit("->");
                assert(n@.text =~= "->"@);
                assert(spans_ok(n@, input@));
            }
            Ok((n, q + 2))
        } else {
            Err(syntax_error(Expected::Arrow, q, end))
        }
    } else if c == '^' {
        let n = char_token(Rule::Bioperator, c, q);
        proof {
            reveal_strlit("^");
            assert(n@.text =~= "^"@);
            assert(input@.subrange(q as int, q as int + 1) =~= seq![input@[q as int]]);
            assert(spans_ok(n@, input@));
        }
        Ok((n, q + 1))
    } else if c == '(' {
        match parse_formula(input, q + 1, end) {
            Err(e) => Err(e),
            Ok((f, p)) => {
                if p < end && input[p] == ')' {
                    let ghost fv = f@;
                    let mut children: Vec<Node> = Vec::new();
                    children.push(f);
                    let n = Node {
                        kind: Rule::Subexpr,
                        text: Vec::new(),
                        start: q,
                        end: p + 1,
                        children,
                    };
                    proof {
                        lemma_node_view(n);
                        assert(n@.children[0] == fv);
                        assert(spans_ok(n@, input@));
                    }
                    Ok((n, p + 1))
                } else {
                    Err(syntax_error(Expected::CloseParen, p, end))
                }
            },
        }
    } else if c == '`' {
        let mut w = q + 1;
        while w < end && input[w] != '`'
            invariant
                q + 1 <= w <= end,
                tick_scan_end(input@, q + 1, end as int) == tick_scan_end(
                    input@,
                    w as int,
                    end as int,
                ),
            decreases end - w,
        {
            w = w + 1;
        }
        if w >= end {
            Err(syntax_error(Expected::CloseBacktick, q, end))
        } else {
            let n = span_token(Rule::LineExt, input, q + 1, w);
            assert(spans_ok(n@, input@));
            Ok((n, w + 1))
        }
    } else if is_word_char_c(c) {
        let mut w = q + 1;
        while w < end && is_word_char_c(input[w])
            invariant
                q + 1 <= w <= end,
                word_scan_end(input@, q + 1, end as int) == word_scan_end(
                    input@,
                    w as int,
                    end as int,
                ),
            decreases end - w,
        {
            w = w + 1;
        }
        if w < end && input[w] == '(' {
            let name = span_token(Rule::Operand, input, q, w);
            match parse_arglist(input, w + 1, end) {
                Err(e) => Err(e),
                Ok((args, p)) => {
                    let ghost namev = name@;
                    let ghost argsv = args@;
                    let mut children: Vec<Node> = Vec::new();
                    children.push(name);
                    children.push(args);
                    let n = Node {
                        kind: Rule::Func,
                        text: Vec::new(),
                        start: q,
                        end: p,
                        children,
                    };
                    proof {
                        lemma_node_view(n);
                        assert(n@.children[0] == namev);
                        assert(n@.children[1] == argsv);
                        assert(wf_item(namev));
                        assert(spans_ok(namev, input@));
                        assert(spans_ok(n@, input@));
                    }
                    Ok((n, p))
                },
            }
        } else if w == q + 1 && (c == 'v' || c == 'V') {
            let n = char_token(Rule::Bioperator, c, q);
            proof {
                reveal_strlit("v");
                reveal_strlit("V");
                if c == 'v' {
                    assert(n@.text =~= "v"@);
                } else {
                    assert(n@.text =~= "V"@);
                }
                assert(input@.subrange(q as int, q as int + 1) =~= seq![input@[q as int]]);
                assert(spans_ok(n@, input@));
            }
            Ok((n, q + 1))
        } else {
            let n = span_token(Rule::Operand, input, q, w);
            assert(spans_ok(n@, input@));
            Ok((n, w))
        }
    } else {
        Err(syntax_error(Expected::Item, q, end))
    }
}

/// Parse a run of formula items from `start`, stopping at the end of
/// the range or at a delimiter the caller owns.
#[verifier::loop_isolation(false)]
fn parse_formula(input: &Vec<char>, start: usize, end: usize) -> (r: Result<
    (Node, usize),
    Error,
>)
    requires
        start <= end <= input@.len(),
    ensures
        match r {
            Ok((n, p)) => wf_formula(n@) && spans_ok(n@, input@) && start <= p && p <= end
                && formula_scan(input@, start as int, end as int) == Some(p as int),
            Err(e) => e.kind is Syntax && e.start <= e.end <= input@.len() && formula_scan(
                input@,
                start as int,
                end as int,
            ) is None,
        },
    decreases end - start, 1nat,
{
    let mut items: Vec<Node> = Vec::new();
    let mut pos = start;
    let mut stop = false;
    while !stop
        invariant
            start <= pos <= end,
            forall|j: int|
                0 <= j < items@.len() ==> wf_item(#[trigger] items@[j]@) && spans_ok(
                    items@[j]@,
                    input@,
                ),
            stop ==> formula_scan(input@, start as int, end as int) == Some(pos as int),
            !stop ==> formula_scan(input@, start as int, end as int) == formula_scan(
                input@,
                pos as int,
                end as int,
            ),
        decreases end - pos, (if stop { 0int } else { 1int }),
    {
        let q = first_nonspace(input, pos, end);
        if q >= end {
            pos = q;
            stop = true;
        } else {
            let c = input[q];
            if c == ')' || c == ',' || c == ']' || c == '[' {
                pos = q;
                stop = true;
            } else {
                match parse_item(input, q, end) {
                    Err(e) => {
                        return Err(e);
                    },
                    Ok((item, p)) => {
                        items.push(item);
                        pos = p;
                    },
                }
            }
        }
    }
    let ghost itemsv = items@;
    let n = Node { kind: Rule::Formula, text: Vec::new(), start, end: pos, children: items };
    proof {
        lemma_node_view(n);
        assert forall|i: int| 0 <= i < n@.children.len() implies wf_item(
            #[trigger] n@.children[i],
        ) && spans_ok(n@.children[i], input@) by {
            assert(n@.children[i] == n.children@[i]@);
            assert(wf_item(itemsv[i]@) && spans_ok(itemsv[i]@, input@));
        }
        assert(spans_ok(n@, input@));
    }
    Ok((n, pos))
}

/// Parse a predicate's argument list after its opening parenthesis,
/// through the closing one: comma-separated formulas.
#[verifier::loop_isolation(false)]
fn parse_arglist(input: &Vec<char>, pos: usize, end: usize) -> (r: Result<
    (Node, usize),
    Error,
>)
    requires
        pos <= end <= input@.len(),
    ensures
        match r {
            Ok((n, p)) => wf_arglist(n@) && spans_ok(n@, input@) && pos < p && p <= end
                && arglist_scan(input@, pos as int, end as int) == Some(p as int),
            Err(e) => e.kind is Syntax && e.start <= e.end <= input@.len() && arglist_scan(
                input@,
                pos as int,
                end as int,
            ) is None,
        },
    decreases end - pos, 2nat,
{
    let q0 = first_nonspace(input, pos, end);
    if q0 < end && input[q0] == ')' {
        let n = Node {
            kind: Rule::ArgList,
            text: Vec::new(),
            start: pos,
            end: q0 + 1,
            children: Vec::new(),
        };
        proof {
            lemma_node_view(n);
            assert(spans_ok(n@, input@));
        }
        return Ok((n, q0 + 1));
    }
    let mut parts: Vec<Node> = Vec::new();
    let mut cur = pos;
    loop
        invariant
            pos <= cur <= end <= input@.len(),
            forall|j: int|
                0 <= j < parts@.len() ==> wf_formula(#[trigger] parts@[j]@) && spans_ok(
                    parts@[j]@,
                    input@,
                ),
            arglist_scan(input@, pos as int, end as int) == arglist_items_scan(
                input@,
                cur as int,
                end as int,
            ),
        decreases end - cur,
    {
        match parse_formula(input, cur, end) {
            Err(e) => {
                return Err(e);
            },
            Ok((f, p)) => {
                parts.push(f);
                if p >= end {
                    return Err(syntax_error(Expected::CloseParen, pos, end));
                }
                let d = input[p];
                if d == ',' {
                    cur = p + 1;
                } else if d == ')' {
                    let ghost partsv = parts@;
                    let n = Node {
                        kind: Rule::ArgList,
                        text: Vec::new(),
                        start: pos,
                        end: p + 1,
                        children: parts,
                    };
                    proof {
                        lemma_node_view(n);
                        assert forall|i: int| 0 <= i < n@.children.len() implies wf_formula(
                            #[trigger] n@.children[i],
                        ) && spans_ok(n@.children[i], input@) by {
                            assert(n@.children[i] == n.children@[i]@);
                            assert(wf_formula(partsv[i]@) && spans_ok(partsv[i]@, input@));
                        }
                        assert(spans_ok(n@, input@));
                    }
                    return Ok((n, p + 1));
                } else {
                    return Err(syntax_error(Expected::CommaOrCloseParen, p, end));
                }
            },
        }
    }
}

/// Build a label node from a `#` line: the trimmed text after the
/// marker, wrapped around one word token.
fn label_line(input: &Vec<char>, p: usize, hi: usize) -> (n: Node)
    requires
        p < hi <= input@.len(),
    ensures
        wf_label(n@),
        spans_ok(n@, input@),
{
    let raw = subvec(input, p + 1, hi);
    let trimmed = trim_vec(&raw);
    let mut word_text: Vec<char> = Vec::new();
    crate::text::append_vec(&mut word_text, &trimmed);
    assert(word_text@ =~= trimmed@);
    let word = Node {
        kind: Rule::Word,
        text: word_text,
        start: p + 1,
        end: hi,
        children: Vec::new(),
    };
    let ghost wordv = word@;
    let mut children: Vec<Node> = Vec::new();
    children.push(word);
    let n = Node { kind: Rule::Label, text: trimmed, start: p + 1, end: hi, children };
    proof {
        lemma_node_view(word);
        lemma_node_view(n);
        assert(wordv.children =~= Seq::<NodeV>::empty());
        assert(n@.children[0] == wordv);
        assert(spans_ok(wordv, input@));
        assert(spans_ok(n@, input@));
    }
    n
}

/// Recognize a `key: value` line; `None` when the line has another
/// shape, so the header has ended.
#[verifier::loop_isolation(false)]
fn try_header_line(input: &Vec<char>, lo: usize, hi: usize) -> (r: Option<Node>)
    requires
        lo <= hi <= input@.len(),
    ensures
        match r {
            Some(n) => wf_header_line(n@) && spans_ok(n@, input@) && header_line_at(
                input@,
                lo as int,
                hi as int,
            ),
            None => !header_line_at(input@, lo as int, hi as int),
        },
{
    let p = first_nonspace(input, lo, hi);
    if p >= hi {
        return None;
    }
    if !is_letter_c(input[p]) {
        return None;
    }
    let mut w = p + 1;
    while w < hi && is_word_char_c(input[w])
        invariant
            p + 1 <= w <= hi,
            word_scan_end(input@, p + 1, hi as int) == word_scan_end(input@, w as int, hi as int),
        decreases hi - w,
    {
        w = w + 1;
    }
    let q = first_nonspace(input, w, hi);
    if q < hi && input[q] == ':' {
        let key = span_token(Rule::HeaderKey, input, p, w);
        let value = span_token(Rule::HeaderValue, input, q + 1, hi);
        let ghost keyv = key@;
        let ghost valuev = value@;
        let mut children: Vec<Node> = Vec::new();
        children.push(key);
        children.push(value);
        let n = Node { kind: Rule::HeaderLine, text: Vec::new(), start: lo, end: hi, children };
        proof {
            lemma_node_view(n);
            assert(n@.children[0] == keyv);
            assert(n@.children[1] == valuev);
            assert(spans_ok(keyv, input@));
            assert(spans_ok(valuev, input@));
            assert(spans_ok(n@, input@));
        }
        Some(n)
    } else {
        None
    }
}

/// Parse a numbered premise line: number, colon, formula, optional
/// bracketed justification.
#[verifier::loop_isolation(false)]
fn arg_line(input: &Vec<char>, p: usize, hi: usize) -> (r: Result<Node, Error>)
    requires
        p < hi <= input@.len(),
        is_digit(input@[p as int]),
    ensures
        match r {
            Ok(n) => wf_arg(n@) && spans_ok(n@, input@) && arg_line_scan(
                input@,
                p as int,
                hi as int,
            ),
            Err(e) => e.kind is Syntax && e.start <= e.end <= input@.len() && !arg_line_scan(
                input@,
                p as int,
                hi as int,
            ),
        },
{
    let mut d = p + 1;
    while d < hi && is_digit_c(input[d])
        invariant
            p + 1 <= d <= hi,
            forall|j: int| p <= j < d ==> is_digit(#[trigger] input@[j]),
            digits_scan_end(input@, p + 1, hi as int) == digits_scan_end(
                input@,
                d as int,
                hi as int,
            ),
        decreases hi - d,
    {
        d = d + 1;
    }
    let number = span_token(Rule::Number, input, p, d);
    proof {
        assert(all_digits(number@.text));
    }
    let q = first_nonspace(input, d, hi);
    if !(q < hi && input[q] == ':') {
        return Err(syntax_error(Expected::Colon, p, hi));
    }
    match parse_formula(input, q + 1, hi) {
        Err(e) => Err(e),
        Ok((f, fp)) => {
            if fp >= hi {
                let ghost numberv = number@;
                let ghost fv = f@;
                let mut children: Vec<Node> = Vec::new();
                children.push(number);
                children.push(f);
                let n = Node { kind: Rule::Arg, text: Vec::new(), start: p, end: hi, children };
                proof {
                    lemma_node_view(n);
                    assert(n@.children[0] == numberv);
                    assert(n@.children[1] == fv);
                    assert(spans_ok(numberv, input@));
                    assert(spans_ok(n@, input@));
                }
                Ok(n)
            } else if input[fp] == '[' {
                match parse_formula(input, fp + 1, hi) {
                    Err(e) => Err(e),
                    Ok((just, jp)) => {
                        if jp < hi && input[jp] == ']' {
                            let z = first_nonspace(input, jp + 1, hi);
                            if z >= hi {
                                let ghost numberv = number@;
                                let ghost fv = f@;
                                let ghost justv = just@;
                                let mut children: Vec<Node> = Vec::new();
                                children.push(number);
                                children.push(f);
                                children.push(just);
                                let n = Node {
                                    kind: Rule::Arg,
                                    text: Vec::new(),
                                    start: p,
                                    end: hi,
                                    children,
                                };
                                proof {
                                    lemma_node_view(n);
                                    assert(n@.children[0] == numberv);
                                    assert(n@.children[1] == fv);
                                    assert(n@.children[2] == justv);
                                    assert(spans_ok(numberv, input@));
                                    assert(spans_ok(n@, input@));
                                }
                                Ok(n)
                            } else {
                                Err(syntax_error(Expected::LineEnd, z, hi))
                            }
                        } else {
                            Err(syntax_error(Expected::CloseBracket, jp, hi))
                        }
                    },
                }
            } else {
                Err(syntax_error(Expected::JustificationOrLineEnd, fp, hi))
            }
        },
    }
}

/// Parse a `|-` conclusion line wrapping one formula.
fn conclusion_line(input: &Vec<char>, p: usize, hi: usize) -> (r: Result<Node, Error>)
    requires
        p < hi <= input@.len(),
    ensures
        match r {
            Ok(n) => wf_conclusion(n@) && spans_ok(n@, input@) && conclusion_line_scan(
                input@,
                p as int,
                hi as int,
            ),
            Err(e) => e.kind is Syntax && e.start <= e.end <= input@.len()
                && !conclusion_line_scan(input@, p as int, hi as int),
        },
{
    if !(p + 1 < hi && input[p + 1] == '-') {
        return Err(syntax_error(Expected::Turnstile, p, hi));
    }
    match parse_formula(input, p + 2, hi) {
        Err(e) => Err(e),
        Ok((f, fp)) => {
            if fp >= hi {
                let ghost fv = f@;
                let mut children: Vec<Node> = Vec::new();
                children.push(f);
                let n = Node {
                    kind: Rule::Conclusion,
                    text: Vec::new(),
                    start: p,
                    end: hi,
                    children,
                };
                proof {
                    lemma_node_view(n);
                    assert(n@.children[0] == fv);
                    assert(spans_ok(n@, input@));
                }
                Ok(n)
            } else {
                Err(syntax_error(Expected::LineEnd, fp, hi))
            }
        },
    }
}

/// The index of the next line that holds any non-blank character, or
/// the number of lines if none does.
#[verifier::loop_isolation(false)]
fn skip_blank(input: &Vec<char>, lines: &Vec<(usize, usize)>, start: usize) -> (r: usize)
    requires
        start <= lines@.len(),
        forall|k: int|
            0 <= k < lines@.len() ==> (#[trigger] lines@[k]).0 <= lines@[k].1 <= input@.len(),
    ensures
        start <= r <= lines@.len(),
        r == skip_blank_scan(input@, lines@, start as int),
{
    let mut i = start;
    while i < lines.len()
        invariant
            start <= i <= lines@.len(),
            skip_blank_scan(input@, lines@, start as int) == skip_blank_scan(
                input@,
                lines@,
                i as int,
            ),
        decreases lines@.len() - i,
    {
        let pr = lines[i];
        if first_nonspace(input, pr.0, pr.1) < pr.1 {
            return i;
        }
        i = i + 1;
    }
    i
}

/// Parse the whole input into one `root` tree whose shape the
/// grammar guarantees, or fail with a syntax error at the offending
/// span. The first significant line must be the header's `#` label;
/// `key: value` lines extend the header until the first line of
/// another shape; after that only label, premise and conclusion
/// lines may appear. Success is owed exactly on the inputs
/// [`document_scan`] accepts: parsing fails if and only if the input
/// is outside the grammar. A returned tree spans the whole input and
/// satisfies [`spans_ok`]: its every token is the input's own text
/// at that token's span, so the tree holds nothing the input does
/// not.
#[verifier::loop_isolation(false)]
pub fn parse(input: &Vec<char>) -> (r: Result<Node, Error>)
    ensures
        match r {
            Ok(n) => wf_root(n@) && spans_ok(n@, input@) && n@.start == 0 && n@.end
                == input@.len() && document_scan(input@),
            Err(e) => e.kind is Syntax && e.start <= e.end <= input@.len() && !document_scan(
                input@,
            ),
        },
{
    let lines = split_lines(input);
    let li0 = skip_blank(input, &lines, 0);
    if li0 >= lines.len() {
        assert(!document_scan(input@));
        return Err(syntax_error(Expected::HeaderLabel, 0, input.len()));
    }
    let pr0 = lines[li0];
    let hstart = pr0.0;
    let p0 = first_nonspace(input, pr0.0, pr0.1);
    if p0 >= pr0.1 || input[p0] != '#' {
        assert(!document_scan(input@));
        return Err(syntax_error(Expected::HeaderLabel, pr0.0, pr0.1));
    }
    let label = label_line(input, p0, pr0.1);
    let ghost labelv = label@;
    let mut hchildren: Vec<Node> = Vec::new();
    hchildren.push(label);
    let mut hend = pr0.1;
    let mut li = li0 + 1;
    let mut in_header = true;
    while in_header && li < lines.len()
        invariant
            li <= lines@.len(),
            hstart <= hend <= input@.len(),
            hchildren@.len() >= 1,
            hchildren@[0]@ == labelv,
            forall|j: int|
                1 <= j < hchildren@.len() ==> wf_header_line(#[trigger] hchildren@[j]@)
                    && spans_ok(hchildren@[j]@, input@),
            in_header ==> header_end_scan(input@, lines@, li0 + 1) == header_end_scan(
                input@,
                lines@,
                li as int,
            ),
            !in_header ==> header_end_scan(input@, lines@, li0 + 1) == li as int,
        decreases lines@.len() - li, (if in_header { 1int } else { 0int }),
    {
        let lj = skip_blank(input, &lines, li);
        if lj >= lines.len() {
            li = lj;
            in_header = false;
        } else {
            let prj = lines[lj];
            match try_header_line(input, prj.0, prj.1) {
                Some(n) => {
                    let ghost hv = hchildren@;
                    hchildren.push(n);
                    assert(hchildren@[0]@ == labelv);
                    if prj.1 > hend {
                        hend = prj.1;
                    }
                    li = lj + 1;
                },
                None => {
                    li = lj;
                    in_header = false;
                },
            }
        }
    }
    proof {
        if in_header {
            assert(header_end_scan(input@, lines@, li as int) == lines@.len());
        }
    }
    let ghost body_start = li as int;
    assert(header_end_scan(input@, lines@, li0 + 1) == body_start);
    let ghost hcv = hchildren@;
    let header = Node {
        kind: Rule::Header,
        text: Vec::new(),
        start: hstart,
        end: hend,
        children: hchildren,
    };
    proof {
        lemma_node_view(header);
        assert(wf_label(header@.children[0]));
        assert(spans_ok(header@.children[0], input@));
        assert forall|j: int| 1 <= j < header@.children.len() implies wf_header_line(
            #[trigger] header@.children[j],
        ) && spans_ok(header@.children[j], input@) by {
            assert(header@.children[j] == header.children@[j]@);
            assert(wf_header_line(hcv[j]@) && spans_ok(hcv[j]@, input@));
        }
        assert(wf_header(header@));
        assert(spans_ok(header@, input@));
    }
    let ghost headerv = header@;
    let mut children: Vec<Node> = Vec::new();
    children.push(header);
    while li < lines.len()
        invariant
            li <= lines@.len(),
            children@.len() >= 1,
            children@[0]@ == headerv,
            forall|j: int|
                1 <= j < children@.len() ==> wf_body_node(#[trigger] children@[j]@)
                    && spans_ok(children@[j]@, input@),
            body_lines_ok(input@, lines@, body_start) == body_lines_ok(
                input@,
                lines@,
                li as int,
            ),
        decreases lines@.len() - li,
    {
        let prb = lines[li];
        let p = first_nonspace(input, prb.0, prb.1);
        if p < prb.1 {
            let c = input[p];
            let ghost cv0 = children@;
            if c == '#' {
                let n = label_line(input, p, prb.1);
                children.push(n);
            } else if is_digit_c(c) {
                match arg_line(input, p, prb.1) {
                    Err(e) => {
                        proof {
                            assert(!body_lines_ok(input@, lines@, li as int));
                            assert(!document_scan(input@));
                        }
                        return Err(e);
                    },
                    Ok(n) => {
                        children.push(n);
                    },
                }
            } else if c == '|' {
                match conclusion_line(input, p, prb.1) {
                    Err(e) => {
                        proof {
                            assert(!body_lines_ok(input@, lines@, li as int));
                            assert(!document_scan(input@));
                        }
                        return Err(e);
                    },
                    Ok(n) => {
                        children.push(n);
                    },
                }
            } else {
                proof {
                    assert(!body_lines_ok(input@, lines@, li as int));
                    assert(!document_scan(input@));
                }
                return Err(syntax_error(Expected::BodyLine, p, prb.1));
            }
        }
        li = li + 1;
    }
    let ghost cv = children@;
    let root = Node { kind: Rule::Root, text: Vec::new(), start: 0, end: input.len(), children };
    proof {
        lemma_node_view(root);
        assert(root@.children[0] == headerv);
        assert forall|j: int| 1 <= j < root@.children.len() implies wf_body_node(
            #[trigger] root@.children[j],
        ) && spans_ok(root@.children[j], input@) by {
            assert(root@.children[j] == root.children@[j]@);
            assert(wf_body_node(cv[j]@) && spans_ok(cv[j]@, input@));
        }
        assert(wf_root(root@));
        assert(spans_ok(root@, input@));
        assert(body_lines_ok(input@, lines@, body_start));
        assert(document_scan(input@));
    }
    Ok(root)
}

} // verus!
