use vstd::prelude::*;

use crate::emit::{all_digits, escape_underscores, is_digit, number_val, parse_num_spec};

verus! {

use vstd::string::StrSliceExecFns;

/// Append the characters of the literal `s` to `out`.
pub fn push_lit(out: &mut Vec<char>, s: &str)
    ensures
        final(out)@ == old(out)@ + s@,
{
    let n = s.unicode_len();
    let mut i: usize = 0;
    while i < n
        invariant
            n == s@.len(),
            i <= n,
            out@ == old(out)@ + s@.subrange(0, i as int),
        decreases n - i,
    {
        let c = s.get_char(i);
        out.push(c);
        assert(old(out)@ + s@.subrange(0, i + 1 as int) =~= (old(out)@ + s@.subrange(
            0,
            i as int,
        )).push(s@[i as int]));
        i = i + 1;
    }
    assert(s@.subrange(0, n as int) =~= s@);
}

/// The characters of the literal `s` as a fresh vector.
pub fn lit_vec(s: &str) -> (v: Vec<char>)
    ensures
        v@ == s@,
{
    let mut v: Vec<char> = Vec::new();
    push_lit(&mut v, s);
    v
}

/// Append a copy of `t` to `out`.
pub fn append_vec(out: &mut Vec<char>, t: &Vec<char>)
    ensures
        final(out)@ == old(out)@ + t@,
{
    let mut i: usize = 0;
    while i < t.len()
        invariant
            i <= t@.len(),
            out@ == old(out)@ + t@.subrange(0, i as int),
        decreases t@.len() - i,
    {
        out.push(t[i]);
        assert(old(out)@ + t@.subrange(0, i + 1 as int) =~= (old(out)@ + t@.subrange(
            0,
            i as int,
        )).push(t@[i as int]));
        i = i + 1;
    }
    assert(t@.subrange(0, t@.len() as int) =~= t@);
}

/// Whether `t` holds exactly the characters of the literal `s`.
pub fn text_is(t: &Vec<char>, s: &str) -> (r: bool)
    ensures
        r == (t@ == s@),
{
    let n = s.unicode_len();
    if t.len() != n {
        assert(t@ != s@) by {
            assert(t@.len() != s@.len());
        }
        return false;
    }
    let mut i: usize = 0;
    while i < n
        invariant
            n == s@.len() == t@.len(),
            i <= n,
            forall|j: int| 0 <= j < i ==> t@[j] == s@[j],
        decreases n - i,
    {
        if t[i] != s.get_char(i) {
            return false;
        }
        i = i + 1;
    }
    assert(t@ =~= s@);
    true
}

/// Append `escape_underscores(t)` to `out`: each `_` becomes `\_`.
pub fn push_escaped(out: &mut Vec<char>, t: &Vec<char>)
    ensures
        final(out)@ == old(out)@ + escape_underscores(t@),
{
    let mut i: usize = 0;
    while i < t.len()
        invariant
            i <= t@.len(),
            out@ == old(out)@ + escape_underscores(t@.subrange(0, i as int)),
        decreases t@.len() - i,
    {
        proof {
            lemma_escape_snoc(t@.subrange(0, i as int), t@[i as int]);
            assert(t@.subrange(0, i + 1 as int) =~= t@.subrange(0, i as int).push(t@[i as int]));
        }
        if t[i] == '_' {
            out.push('\\');
            out.push('_');
        } else {
            out.push(t[i]);
        }
        i = i + 1;
    }
    assert(t@.subrange(0, t@.len() as int) =~= t@);
}

/// The single-character block `escape_underscores` emits for `c`.
pub open spec fn escape_block(c: char) -> Seq<char> {
    if c == '_' {
        seq!['\\', '_']
    } else {
        seq![c]
    }
}

/// Escaping a string one character longer appends that character's block.
pub proof fn lemma_escape_snoc(s: Seq<char>, c: char)
    ensures
        escape_underscores(s.push(c)) == escape_underscores(s) + escape_block(c),
    decreases s.len(),
{
    if s.len() == 0 {
        assert(s.push(c).drop_first() =~= Seq::<char>::empty());
        assert(escape_underscores(Seq::<char>::empty()) =~= Seq::<char>::empty());
        assert(s.push(c)[0] == c);
        assert(escape_underscores(s.push(c)) =~= escape_block(c));
        assert(escape_underscores(s) + escape_block(c) =~= escape_block(c));
    } else {
        assert(s.push(c).drop_first() =~= s.drop_first().push(c));
        lemma_escape_snoc(s.drop_first(), c);
        assert(escape_underscores(s.push(c)) =~= escape_underscores(s) + escape_block(c));
    }
}

/// Digit strings have non-negative value.
pub proof fn lemma_number_val_nonneg(s: Seq<char>)
    requires
        all_digits(s),
    ensures
        number_val(s) >= 0,
    decreases s.len(),
{
    if s.len() > 0 {
        assert(all_digits(s.drop_last()));
        lemma_number_val_nonneg(s.drop_last());
    }
}

/// A digit string is worth at least any of its prefixes.
pub proof fn lemma_number_val_prefix(s: Seq<char>, i: int)
    requires
        all_digits(s),
        0 <= i <= s.len(),
    ensures
        number_val(s.subrange(0, i)) <= number_val(s),
    decreases s.len() - i,
{
    if i < s.len() {
        let t = s.subrange(0, i + 1);
        assert(t.drop_last() =~= s.subrange(0, i));
        assert(all_digits(t));
        lemma_number_val_nonneg(t.drop_last());
        assert(number_val(t) == number_val(s.subrange(0, i)) * 10 + (t.last() as int
            - '0' as int));
        assert(number_val(s.subrange(0, i)) <= number_val(t)) by {
            lemma_number_val_nonneg(s.subrange(0, i));
        }
        lemma_number_val_prefix(s, i + 1);
        assert(s.subrange(0, s.len() as int) =~= s);
    } else {
        assert(s.subrange(0, i) =~= s);
    }
}

/// Parse a premise-number token: a non-empty digit string whose
/// value fits in a `u16`.
pub fn parse_num(t: &Vec<char>) -> (r: Option<u16>)
    ensures
        r == parse_num_spec(t@),
{
    if t.len() == 0 {
        return None;
    }
    let mut i: usize = 0;
    let mut val: u32 = 0;
    while i < t.len()
        invariant
            i <= t@.len(),
            t@.len() > 0,
            all_digits(t@.subrange(0, i as int)),
            val == number_val(t@.subrange(0, i as int)),
            val <= u16::MAX,
        decreases t@.len() - i,
    {
        let c = t[i];
        if !(c >= '0' && c <= '9') {
            assert(!is_digit(t@[i as int]));
            assert(!all_digits(t@));
            return None;
        }
        proof {
            assert(t@.subrange(0, i + 1 as int).drop_last() =~= t@.subrange(0, i as int));
        }
        let d: u32 = c as u32 - 48;
        let next: u32 = val * 10 + d;
        if next > 65535 {
            assert(parse_num_spec(t@) is None) by {
                if all_digits(t@) {
                    lemma_number_val_prefix(t@, i + 1);
                }
            }
            return None;
        }
        val = next;
        i = i + 1;
    }
    assert(t@.subrange(0, t@.len() as int) =~= t@);
    Some(val as u16)
}

/// A copy of `t[lo..hi]`.
pub fn subvec(t: &Vec<char>, lo: usize, hi: usize) -> (r: Vec<char>)
    requires
        lo <= hi <= t@.len(),
    ensures
        r@ == t@.subrange(lo as int, hi as int),
{
    let mut r: Vec<char> = Vec::new();
    let mut i: usize = lo;
    while i < hi
        invariant
            lo <= i <= hi <= t@.len(),
            r@ == t@.subrange(lo as int, i as int),
        decreases hi - i,
    {
        r.push(t[i]);
        assert(t@.subrange(lo as int, i + 1 as int) =~= t@.subrange(lo as int, i as int).push(
            t@[i as int],
        ));
        i = i + 1;
    }
    r
}

} // verus!
