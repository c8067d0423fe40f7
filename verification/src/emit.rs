use vstd::prelude::*;

use crate::error::{custom_error, Error, ErrorKind};
use crate::text::{append_vec, lit_vec, parse_num, push_escaped, push_lit, text_is};
use crate::tree::{extract_at_least, extract_exact, lemma_node_view, Node, NodeV, Rule};

verus! {

broadcast use vstd::std_specs::vec::group_vec_axioms;

/// The numbering context of one section: tracks the next expected
/// premise number so that premises run 1..N with no gaps.
#[derive(Debug)]
pub struct Context {
    pub current_number: u16,
}

impl Default for Context {
    /// A fresh context: no premise seen yet.
    fn default() -> (c: Context)
        ensures
            c.current_number == 0,
    {
        Context { current_number: 0 }
    }
}

impl Context {
    /// The number the next premise must carry.
    pub fn expect_next(&self) -> (r: u32)
        ensures
            r == self.current_number + 1,
    {
        self.current_number as u32 + 1
    }

    /// Accept `number` if it is the expected next one, advancing the
    /// counter; report whether it was accepted.
    pub fn advance(&mut self, number: u16) -> (r: bool)
        ensures
            r <==> number == old(self).current_number + 1,
            r ==> final(self).current_number == number,
            !r ==> final(self).current_number == old(self).current_number,
    {
        if self.current_number < u16::MAX && number == self.current_number + 1 {
            self.current_number = number;
            true
        } else {
            false
        }
    }

    /// Start a new section: the next premise must be number 1.
    pub fn reset(&mut self)
        ensures
            final(self).current_number == 0,
    {
        self.current_number = 0;
    }
}

/// `s` with every underscore escaped as `\_` for LaTeX.
pub open spec fn escape_underscores(s: Seq<char>) -> Seq<char>
    decreases s.len(),
{
    if s.len() == 0 {
        Seq::empty()
    } else {
        (if s[0] == '_' {
            seq!['\\', '_']
        } else {
            seq![s[0]]
        }) + escape_underscores(s.drop_first())
    }
}

/// Inverse of [`escape_underscores`]: drops the backslash it put
/// before each underscore.
pub open spec fn unescape_underscores(s: Seq<char>) -> Seq<char>
    decreases s.len(),
{
    if s.len() == 0 {
        Seq::empty()
    } else if s.len() >= 2 && s[0] == '\\' && s[1] == '_' {
        seq!['_'] + unescape_underscores(s.skip(2))
    } else {
        seq![s[0]] + unescape_underscores(s.drop_first())
    }
}

pub open spec fn is_digit(c: char) -> bool {
    '0' <= c && c <= '9'
}

pub open spec fn all_digits(s: Seq<char>) -> bool {
    forall|i: int| 0 <= i < s.len() ==> is_digit(#[trigger] s[i])
}

/// The value of a string of decimal digits.
pub open spec fn number_val(s: Seq<char>) -> int
    decreases s.len(),
{
    if s.len() == 0 {
        0
    } else {
        number_val(s.drop_last()) * 10 + (s.last() as int - '0' as int)
    }
}

/// What parsing a premise-number token yields: its value, if the
/// token is a non-empty digit string whose value fits in a `u16`.
pub open spec fn parse_num_spec(s: Seq<char>) -> Option<u16> {
    if s.len() > 0 && all_digits(s) && number_val(s) <= u16::MAX {
        Some(number_val(s) as u16)
    } else {
        None
    }
}

/// The result of emitting one node: the LaTeX fragment or the first
/// error, paired with the numbering counter after the attempt.
pub open spec fn emit_spec(n: NodeV, c: u16) -> (Result<Seq<char>, Error>, u16)
    decreases n, 1nat,
{
    match n.kind {
        Rule::Existencial => {
            if n.text == "@"@ {
                (Ok("\\forall "@), c)
            } else if n.text == "&"@ {
                (Ok("\\exists "@), c)
            } else {
                (Err(internal_at(n)), c)
            }
        },
        Rule::Bioperator => {
            if n.text == "->"@ {
                (Ok("\\rightarrow "@), c)
            } else if n.text == "^"@ {
                (Ok("\\land "@), c)
            } else if n.text == "V"@ || n.text == "v"@ {
                (Ok("\\lor "@), c)
            } else {
                (Err(internal_at(n)), c)
            }
        },
        Rule::LineExt => (Ok(n.text), c),
        Rule::Operand => (Ok(escape_underscores(n.text)), c),
        Rule::Arg => emit_arg_spec(n, c),
        Rule::Neg => emit_wrapped_spec(n, c, "\\lnot "@, Seq::empty()),
        Rule::Conclusion => emit_wrapped_spec(n, c, "\\conclusion{"@, "}"@),
        Rule::Subexpr => emit_wrapped_spec(n, c, "("@, ")"@),
        Rule::Func => emit_func_spec(n, c),
        Rule::Header | Rule::HeaderLine | Rule::HeaderKey | Rule::HeaderValue => {
            (Err(internal_at(n)), c)
        },
        _ => emit_concat_spec(n.children, 0, c, Seq::empty()),
    }
}

/// An internal-invariant error at `n`'s span.
pub open spec fn internal_at(n: NodeV) -> Error {
    Error { kind: ErrorKind::Internal, start: n.start as usize, end: n.end as usize }
}

/// Emitting a unary rule: one exact child, emitted between `before`
/// and `after`.
pub open spec fn emit_wrapped_spec(n: NodeV, c: u16, before: Seq<char>, after: Seq<char>) -> (
    Result<Seq<char>, Error>,
    u16,
)
    decreases n, 0nat,
{
    if n.children.len() < 1 {
        (
            Err(
                Error {
                    kind: ErrorKind::Arity { rule: n.kind, expected: 1, got: n.children.len() as usize },
                    start: n.start as usize,
                    end: n.end as usize,
                },
            ),
            c,
        )
    } else if n.children.len() > 1 {
        (
            Err(
                Error {
                    kind: ErrorKind::ExcessArity { rule: n.kind, expected: 1, got: n.children.len() as usize },
                    start: n.start as usize,
                    end: n.end as usize,
                },
            ),
            c,
        )
    } else {
        match emit_spec(n.children[0], c) {
            (Ok(inner), c2) => (Ok(before + inner + after), c2),
            (Err(e), c2) => (Err(e), c2),
        }
    }
}

/// Emitting a premise: parse its number, require it to be the next
/// in sequence, then wrap the formula (and optional justification)
/// as an `\argument` invocation.
pub open spec fn emit_arg_spec(n: NodeV, c: u16) -> (Result<Seq<char>, Error>, u16)
    decreases n, 0nat,
{
    if n.children.len() < 2 {
        (
            Err(
                Error {
                    kind: ErrorKind::Arity { rule: n.kind, expected: 2, got: n.children.len() as usize },
                    start: n.start as usize,
                    end: n.end as usize,
                },
            ),
            c,
        )
    } else {
        let number = n.children[0];
        match parse_num_spec(number.text) {
            None => (
                (
                    Err(
                        Error {
                            kind: ErrorKind::BadNumber,
                            start: number.start as usize,
                            end: number.end as usize,
                        },
                    ),
                    c,
                )
            ),
            Some(num) => {
                if num != c + 1 {
                    (
                        Err(
                            Error {
                                kind: ErrorKind::SeqMismatch {
                                    expected: (c + 1) as u32,
                                    actual: num,
                                },
                                start: n.start as usize,
                                end: n.end as usize,
                            },
                        ),
                        c,
                    )
                } else {
                    match emit_spec(n.children[1], num) {
                        (Err(e), c2) => (Err(e), c2),
                        (Ok(formula), c2) => {
                            if n.children.len() == 2 {
                                (Ok("\\argument{"@ + formula + "}"@), c2)
                            } else if n.children.len() == 3 {
                                match emit_spec(n.children[2], c2) {
                                    (Err(e), c3) => (Err(e), c3),
                                    (Ok(just), c3) => (
                                        Ok(
                                            "\\argument["@ + just + "]{"@ + formula + "}"@,
                                        ),
                                        c3,
                                    ),
                                }
                            } else {
                                (Err(internal_at(n)), c2)
                            }
                        },
                    }
                }
            },
        }
    }
}

/// Emitting a predicate application: the argument list first, then
/// the name, joined as `\pred{name}{a, b, ...}`.
pub open spec fn emit_func_spec(n: NodeV, c: u16) -> (Result<Seq<char>, Error>, u16)
    decreases n, 0nat,
{
    if n.children.len() < 2 {
        (
            Err(
                Error {
                    kind: ErrorKind::Arity { rule: n.kind, expected: 2, got: n.children.len() as usize },
                    start: n.start as usize,
                    end: n.end as usize,
                },
            ),
            c,
        )
    } else {
        match emit_list_spec(n.children[1].children, 0, c, Seq::empty()) {
            (Err(e), c2) => (Err(e), c2),
            (Ok(parts), c2) => match emit_spec(n.children[0], c2) {
                (Err(e), c3) => (Err(e), c3),
                (Ok(name), c3) => (
                    Ok("\\pred{"@ + name + "}{"@ + join_comma(parts) + "}"@),
                    c3,
                ),
            },
        }
    }
}

/// Emit the children `s[i..]` in order, appending each fragment to
/// `acc` with no separator: the generic grouping case.
pub open spec fn emit_concat_spec(s: Seq<NodeV>, i: int, c: u16, acc: Seq<char>) -> (
    Result<Seq<char>, Error>,
    u16,
)
    decreases s, s.len() - i,
{
    if i < 0 || i >= s.len() {
        (Ok(acc), c)
    } else {
        match emit_spec(s[i], c) {
            (Err(e), c2) => (Err(e), c2),
            (Ok(t), c2) => emit_concat_spec(s, i + 1, c2, acc + t),
        }
    }
}

/// Emit the children `s[i..]` in order as separate fragments,
/// appended to `parts`: a predicate's arguments.
pub open spec fn emit_list_spec(s: Seq<NodeV>, i: int, c: u16, parts: Seq<Seq<char>>) -> (
    Result<Seq<Seq<char>>, Error>,
    u16,
)
    decreases s, s.len() - i,
{
    if i < 0 || i >= s.len() {
        (Ok(parts), c)
    } else {
        match emit_spec(s[i], c) {
            (Err(e), c2) => (Err(e), c2),
            (Ok(t), c2) => emit_list_spec(s, i + 1, c2, parts.push(t)),
        }
    }
}

/// The fragments of `parts[i..]` appended to `acc`, each preceded by
/// a comma and a space.
pub open spec fn join_from(parts: Seq<Seq<char>>, i: int, acc: Seq<char>) -> Seq<char>
    decreases parts.len() - i,
{
    if i < 0 || i >= parts.len() {
        acc
    } else {
        join_from(parts, i + 1, acc + ", "@ + parts[i])
    }
}

/// `parts` joined with `", "` between fragments.
pub open spec fn join_comma(parts: Seq<Seq<char>>) -> Seq<char> {
    if parts.len() == 0 {
        Seq::empty()
    } else {
        join_from(parts, 1, parts[0])
    }
}

/// `parts` joined with `", "` between fragments, as a fresh vector.
#[verifier::loop_isolation(false)]
pub fn join_parts(parts: &Vec<Vec<char>>) -> (out: Vec<char>)
    ensures
        out@ == join_comma(parts.deep_view()),
{
    let ghost pv = parts.deep_view();
    let mut out: Vec<char> = Vec::new();
    if parts.len() == 0 {
        return out;
    }
    assert(pv[0] =~= parts@[0]@);
    append_vec(&mut out, &parts[0]);
    let mut i: usize = 1;
    while i < parts.len()
        invariant
            1 <= i <= parts@.len(),
            pv == parts.deep_view(),
            pv.len() == parts@.len(),
            join_from(pv, 1, pv[0]) == join_from(pv, i as int, out@),
        decreases parts@.len() - i,
    {
        assert(pv[i as int] =~= parts@[i as int]@);
        push_lit(&mut out, ", ");
        append_vec(&mut out, &parts[i]);
        i = i + 1;
    }
    out
}

/// Translate one parse-tree node into its LaTeX fragment, validating
/// and advancing the numbering context on each premise; agrees with
/// [`emit_spec`] on the fragment, the error and the counter alike.
#[verifier::loop_isolation(false)]
pub fn emit(pair: &Node, ctx: &mut Context) -> (r: Result<Vec<char>, Error>)
    ensures
        ({
            let (sres, c2) = emit_spec(pair@, old(ctx).current_number);
            &&& final(ctx).current_number == c2
            &&& match r {
                Ok(v) => sres == Ok::<Seq<char>, Error>(v@),
                Err(e) => sres == Err::<Seq<char>, Error>(e),
            }
        }),
    decreases *pair, 1nat,
{
    proof {
        lemma_node_view(*pair);
    }
    let ghost c0 = ctx.current_number;
    match pair.kind {
        Rule::Existencial => {
            if text_is(&pair.text, "@") {
                Ok(lit_vec("\\forall "))
            } else if text_is(&pair.text, "&") {
                Ok(lit_vec("\\exists "))
            } else {
                Err(custom_error(ErrorKind::Internal, pair.start, pair.end))
            }
        },
        Rule::Bioperator => {
            if text_is(&pair.text, "->") {
                Ok(lit_vec("\\rightarrow "))
            } else if text_is(&pair.text, "^") {
                Ok(lit_vec("\\land "))
            } else if text_is(&pair.text, "V") || text_is(&pair.text, "v") {
                Ok(lit_vec("\\lor "))
            } else {
                Err(custom_error(ErrorKind::Internal, pair.start, pair.end))
            }
        },
        Rule::LineExt => {
            let mut out: Vec<char> = Vec::new();
            append_vec(&mut out, &pair.text);
            assert(out@ =~= pair@.text);
            Ok(out)
        },
        Rule::Operand => {
            let mut out: Vec<char> = Vec::new();
            push_escaped(&mut out, &pair.text);
            assert(out@ =~= escape_underscores(pair@.text));
            Ok(out)
        },
        Rule::Arg => {
            match extract_at_least(pair, 2) {
                Err(e) => {
                    return Err(e);
                },
                Ok(()) => {},
            }
            let number = &pair.children[0];
            proof {
                lemma_node_view(*number);
            }
            match parse_num(&number.text) {
                None => Err(custom_error(ErrorKind::BadNumber, number.start, number.end)),
                Some(num) => {
                    let expected = ctx.expect_next();
                    if num as u32 != expected {
                        Err(custom_error(
                            ErrorKind::SeqMismatch { expected, actual: num },
                            pair.start,
                            pair.end,
                        ))
                    } else {
                        let advanced = ctx.advance(num);
                        assert(advanced);
                        match emit(&pair.children[1], ctx) {
                            Err(e) => Err(e),
                            Ok(formula) => {
                                if pair.children.len() == 2 {
                                    let mut out = lit_vec("\\argument{");
                                    append_vec(&mut out, &formula);
                                    push_lit(&mut out, "}");
                                    assert(out@ =~= "\\argument{"@ + formula@ + "}"@);
                                    Ok(out)
                                } else if pair.children.len() == 3 {
                                    match emit(&pair.children[2], ctx) {
                                        Err(e) => Err(e),
                                        Ok(just) => {
                                            let mut out = lit_vec("\\argument[");
                                            append_vec(&mut out, &just);
                                            push_lit(&mut out, "]{");
                                            append_vec(&mut out, &formula);
                                            push_lit(&mut out, "}");
                                            assert(out@ =~= "\\argument["@ + just@ + "]{"@
                                                + formula@ + "}"@);
                                            Ok(out)
                                        },
                                    }
                                } else {
                                    Err(custom_error(ErrorKind::Internal, pair.start, pair.end))
                                }
                            },
                        }
                    }
                },
            }
        },
        Rule::Neg => {
            proof {
                reveal_strlit("");
                assert(""@ =~= Seq::<char>::empty());
            }
            emit_wrapped(pair, ctx, "\\lnot ", "")
        },
        Rule::Conclusion => emit_wrapped(pair, ctx, "\\conclusion{", "}"),
        Rule::Subexpr => emit_wrapped(pair, ctx, "(", ")"),
        Rule::Func => {
            match extract_at_least(pair, 2) {
                Err(e) => {
                    return Err(e);
                },
                Ok(()) => {},
            }
            let argsnode = &pair.children[1];
            proof {
                lemma_node_view(*argsnode);
                assert(pair@.children[1] == argsnode@);
            }
            let ghost s = pair@.children[1].children;
            let mut parts: Vec<Vec<char>> = Vec::new();
            assert(parts.deep_view() =~~= Seq::<Seq<char>>::empty());
            let mut i: usize = 0;
            while i < argsnode.children.len()
                invariant
                    i <= argsnode.children@.len(),
                    s.len() == argsnode.children@.len(),
                    forall|j: int|
                        0 <= j < s.len() ==> s[j] == #[trigger] argsnode.children@[j]@,
                    emit_list_spec(s, 0, c0, Seq::empty()) == emit_list_spec(
                        s,
                        i as int,
                        ctx.current_number,
                        parts.deep_view(),
                    ),
                decreases argsnode.children@.len() - i,
            {
                let ghost pv = parts.deep_view();
                let ghost ci = ctx.current_number;
                proof {
                    vstd::std_specs::vec::axiom_vec_index_decreases(pair.children, 1);
                    vstd::std_specs::vec::axiom_vec_index_decreases(
                        argsnode.children,
                        i as int,
                    );
                    assert(decreases_to!(*pair => pair.children));
                    assert(decreases_to!(*argsnode => argsnode.children));
                }
                match emit(&argsnode.children[i], ctx) {
                    Err(e) => {
                        proof {
                            assert(emit_list_spec(s, i as int, ci, pv) == (
                                Err::<Seq<Seq<char>>, Error>(e),
                                ctx.current_number,
                            ));
                        }
                        return Err(e);
                    },
                    Ok(t) => {
                        parts.push(t);
                        assert(parts.deep_view() =~~= pv.push(parts@[parts@.len() - 1]@));
                    },
                }
                i = i + 1;
            }
            let ghost cl = ctx.current_number;
            assert(emit_list_spec(s, 0, c0, Seq::empty()) == (
                Ok::<Seq<Seq<char>>, Error>(parts.deep_view()),
                cl,
            ));
            match emit(&pair.children[0], ctx) {
                Err(e) => Err(e),
                Ok(name) => {
                    let joined = join_parts(&parts);
                    let mut out = lit_vec("\\pred{");
                    append_vec(&mut out, &name);
                    push_lit(&mut out, "}{");
                    append_vec(&mut out, &joined);
                    push_lit(&mut out, "}");
                    assert(out@ =~= "\\pred{"@ + name@ + "}{"@ + join_comma(
                        parts.deep_view(),
                    ) + "}"@);
                    Ok(out)
                },
            }
        },
        Rule::Header | Rule::HeaderLine | Rule::HeaderKey | Rule::HeaderValue => {
            Err(custom_error(ErrorKind::Internal, pair.start, pair.end))
        },
        _ => {
            let ghost s = pair@.children;
            let mut out: Vec<char> = Vec::new();
            let mut i: usize = 0;
            while i < pair.children.len()
                invariant
                    i <= pair.children@.len(),
                    s.len() == pair.children@.len(),
                    forall|j: int| 0 <= j < s.len() ==> s[j] == #[trigger] pair.children@[j]@,
                    emit_concat_spec(s, 0, c0, Seq::empty()) == emit_concat_spec(
                        s,
                        i as int,
                        ctx.current_number,
                        out@,
                    ),
                decreases pair.children@.len() - i,
            {
                let ghost ci = ctx.current_number;
                let ghost acc = out@;
                match emit(&pair.children[i], ctx) {
                    Err(e) => {
                        proof {
                            assert(emit_concat_spec(s, i as int, ci, acc) == (
                                Err::<Seq<char>, Error>(e),
                                ctx.current_number,
                            ));
                        }
                        return Err(e);
                    },
                    Ok(t) => {
                        append_vec(&mut out, &t);
                    },
                }
                i = i + 1;
            }
            Ok(out)
        },
    }
}

/// Emit a unary rule: the exact single child's fragment between
/// `before` and `after`.
fn emit_wrapped(pair: &Node, ctx: &mut Context, before: &str, after: &str) -> (r: Result<
    Vec<char>,
    Error,
>)
    ensures
        ({
            let (sres, c2) = emit_wrapped_spec(pair@, old(ctx).current_number, before@, after@);
            &&& final(ctx).current_number == c2
            &&& match r {
                Ok(v) => sres == Ok::<Seq<char>, Error>(v@),
                Err(e) => sres == Err::<Seq<char>, Error>(e),
            }
        }),
    decreases *pair, 0nat,
{
    proof {
        lemma_node_view(*pair);
    }
    match extract_exact(pair, 1) {
        Err(e) => Err(e),
        Ok(()) => match emit(&pair.children[0], ctx) {
            Err(e) => Err(e),
            Ok(inner) => {
                let mut out = lit_vec(before);
                append_vec(&mut out, &inner);
                push_lit(&mut out, after);
                assert(out@ =~= before@ + inner@ + after@);
                Ok(out)
            },
        },
    }
}

} // verus!
