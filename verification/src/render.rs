use vstd::prelude::*;

use crate::state::State;
use crate::state::Towers;

verus! {

/// The decimal digits of one rank, most significant first, as ASCII bytes.
pub open spec fn dec_digits(d: u8) -> Seq<u8> {
    if d < 10 {
        seq![(48 + d) as u8]
    } else if d < 100 {
        seq![(48 + d / 10) as u8, (48 + d % 10) as u8]
    } else {
        seq![(48 + d / 100) as u8, (48 + (d / 10) % 10) as u8, (48 + d % 10) as u8]
    }
}

/// One stack as text: its ranks bottom-first, separated by single spaces.
pub open spec fn spec_render_stack(s: Seq<u8>) -> Seq<u8>
    decreases s.len(),
{
    if s.len() == 0 {
        Seq::empty()
    } else if s.len() == 1 {
        dec_digits(s[0])
    } else {
        spec_render_stack(s.drop_last()) + seq![32u8] + dec_digits(s.last())
    }
}

/// The whole record as text: each stack bracketed, in order.
pub open spec fn spec_render(t: Towers) -> Seq<u8> {
    seq![91u8] + spec_render_stack(t.t1) + seq![93u8, 91u8] + spec_render_stack(t.t2) + seq![
        93u8,
        91u8,
    ] + spec_render_stack(t.t3) + seq![93u8]
}

/// Every byte of a decimal rendering is printable ASCII.
proof fn lemma_dec_digits_ascii(d: u8)
    ensures
        forall|i: int| 0 <= i < dec_digits(d).len() ==> dec_digits(d)[i] < 128,
{
}

/// Every byte of one stack's text is printable ASCII.
proof fn lemma_render_stack_ascii(s: Seq<u8>)
    ensures
        forall|i: int| 0 <= i < spec_render_stack(s).len() ==> spec_render_stack(s)[i] < 128,
    decreases s.len(),
{
    if s.len() == 0 {
    } else if s.len() == 1 {
        lemma_dec_digits_ascii(s[0]);
    } else {
        lemma_render_stack_ascii(s.drop_last());
        lemma_dec_digits_ascii(s.last());
        let head = spec_render_stack(s.drop_last());
        let tail = dec_digits(s.last());
        let whole = spec_render_stack(s);
        assert forall|i: int| 0 <= i < whole.len() implies whole[i] < 128 by {
            if i < head.len() {
                assert(whole[i] == head[i]);
            } else if i == head.len() {
                assert(whole[i] == 32u8);
            } else {
                assert(whole[i] == tail[i - head.len() - 1]);
            }
        }
    }
}

/// Every byte of a rendered dump is printable ASCII — in particular, valid
/// UTF-8 as it stands.
pub proof fn lemma_render_ascii(t: Towers)
    ensures
        forall|i: int| 0 <= i < spec_render(t).len() ==> spec_render(t)[i] < 128,
{
    lemma_render_stack_ascii(t.t1);
    lemma_render_stack_ascii(t.t2);
    lemma_render_stack_ascii(t.t3);
    let r1 = spec_render_stack(t.t1);
    let r2 = spec_render_stack(t.t2);
    let r3 = spec_render_stack(t.t3);
    let w = spec_render(t);
    let a = 1 + r1.len() as int;
    let b = a + 2;
    let c = b + r2.len() as int;
    let d = c + 2;
    let e = d + r3.len() as int;
    assert forall|i: int| 0 <= i < w.len() implies w[i] < 128 by {
        if i == 0 {
            assert(w[i] == 91u8);
        } else if i < a {
            assert(w[i] == r1[i - 1]);
        } else if i == a {
            assert(w[i] == 93u8);
        } else if i == a + 1 {
            assert(w[i] == 91u8);
        } else if i < c {
            assert(w[i] == r2[i - b]);
        } else if i == c {
            assert(w[i] == 93u8);
        } else if i == c + 1 {
            assert(w[i] == 91u8);
        } else if i < e {
            assert(w[i] == r3[i - d]);
        } else {
            assert(w[i] == 93u8);
        }
    }
}

/// Append the decimal digits of `d`.
fn push_digits(out: &mut Vec<u8>, d: u8)
    ensures
        final(out)@ == old(out)@ + dec_digits(d),
{
    if d < 10 {
        out.push(48 + d);
    } else if d < 100 {
        out.push(48 + d / 10);
        out.push(48 + d % 10);
    } else {
        out.push(48 + d / 100);
        out.push(48 + (d / 10) % 10);
        out.push(48 + d % 10);
    }
    proof {
        assert(out@ =~= old(out)@ + dec_digits(d));
    }
}

/// Append one stack's text.
fn push_stack_text(out: &mut Vec<u8>, stack: &Vec<u8>)
    ensures
        final(out)@ == old(out)@ + spec_render_stack(stack@),
{
    let mut i: usize = 0;
    proof {
        assert(stack@.subrange(0, 0) =~= Seq::<u8>::empty());
        assert(out@ =~= old(out)@ + spec_render_stack(stack@.subrange(0, 0)));
    }
    while i < stack.len()
        invariant
            i <= stack@.len(),
            out@ == old(out)@ + spec_render_stack(stack@.subrange(0, i as int)),
        decreases stack@.len() - i,
    {
        if i > 0 {
            out.push(32);
        }
        push_digits(out, stack[i]);
        i = i + 1;
        proof {
            let pre = stack@.subrange(0, i - 1);
            let cur = stack@.subrange(0, i as int);
            assert(cur.drop_last() =~= pre);
            assert(cur.last() == stack@[i - 1]);
            assert(out@ =~= old(out)@ + spec_render_stack(cur));
        }
    }
    proof {
        assert(stack@.subrange(0, stack@.len() as int) =~= stack@);
    }
}

impl State {
    /// A human-readable dump of the three stacks, bottom of each first.
    pub fn render(&self) -> (r: Vec<u8>)
        ensures
            r@ == spec_render(self@),
    {
        let mut out: Vec<u8> = Vec::new();
        out.push(91);
        push_stack_text(&mut out, &self.tower1);
        out.push(93);
        out.push(91);
        push_stack_text(&mut out, &self.tower2);
        out.push(93);
        out.push(91);
        push_stack_text(&mut out, &self.tower3);
        out.push(93);
        proof {
            assert(out@ =~= spec_render(self@));
        }
        out
    }
}

} // verus!
