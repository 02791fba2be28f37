use vstd::prelude::*;

use crate::errors::StateError;
use crate::state::State;
use crate::state::Towers;

verus! {

// The wire format is a fixed-arity record: the byte 0x83 opens a three-slot
// record, and each slot is one stack as a length-prefixed run of rank bytes.
// A run shorter than 24 bytes carries its length in the tag byte itself
// (0x40 + length); a longer run uses the tag 0x58 followed by one length
// byte. The shortest form is mandatory, so every record has exactly one
// encoding and identical layouts always yield identical bytes.
/// The length prefix of one encoded stack.
pub open spec fn enc_header(len: int) -> Seq<u8>
    recommends
        0 <= len <= 255,
{
    if len < 24 {
        seq![(0x40 + len) as u8]
    } else {
        seq![0x58u8, len as u8]
    }
}

/// One stack on the wire: its length prefix, then its ranks bottom-first.
pub open spec fn enc_chunk(s: Seq<u8>) -> Seq<u8> {
    enc_header(s.len() as int) + s
}

/// The length prefix of one text block, in the mandatory shortest form:
/// lengths under 24 live in the tag byte (0x60 + length), and longer ones
/// follow the tag 0x78, 0x79, 0x7a or 0x7b as one, two, four or eight
/// big-endian length bytes.
pub open spec fn text_header(len: int) -> Seq<u8>
    recommends
        0 <= len,
{
    if len < 24 {
        seq![(0x60 + len) as u8]
    } else if len < 0x100 {
        seq![0x78u8, len as u8]
    } else if len < 0x10000 {
        seq![0x79u8, (len / 0x100) as u8, (len % 0x100) as u8]
    } else if len < 0x100000000 {
        seq![
            0x7au8,
            (len / 0x1000000) as u8,
            ((len / 0x10000) % 0x100) as u8,
            ((len / 0x100) % 0x100) as u8,
            (len % 0x100) as u8,
        ]
    } else {
        seq![
            0x7bu8,
            (len / 0x100000000000000) as u8,
            ((len / 0x1000000000000) % 0x100) as u8,
            ((len / 0x10000000000) % 0x100) as u8,
            ((len / 0x100000000) % 0x100) as u8,
            ((len / 0x1000000) % 0x100) as u8,
            ((len / 0x10000) % 0x100) as u8,
            ((len / 0x100) % 0x100) as u8,
            (len % 0x100) as u8,
        ]
    }
}

/// One text block on the wire: the shortest-form text-string header, then
/// the UTF-8 bytes themselves.
pub open spec fn text_block_of(s: Seq<u8>) -> Seq<u8> {
    text_header(s.len() as int) + s
}

/// The canonical serialization of a layout.
pub open spec fn spec_encode(t: Towers) -> Seq<u8> {
    seq![0x83u8] + enc_chunk(t.t1) + enc_chunk(t.t2) + enc_chunk(t.t3)
}

/// Read one encoded stack at position `p`; yields the stack and the position
/// just past it. Rejects length prefixes not in shortest form.
pub open spec fn parse_chunk(b: Seq<u8>, p: int) -> Option<(Seq<u8>, int)> {
    if 0 <= p < b.len() {
        let h = b[p];
        if 0x40 <= h <= 0x57 {
            let l = h - 0x40;
            if p + 1 + l <= b.len() {
                Some((b.subrange(p + 1, p + 1 + l), p + 1 + l))
            } else {
                None
            }
        } else if h == 0x58 {
            if p + 2 <= b.len() {
                let l = b[p + 1] as int;
                if l >= 24 && p + 2 + l <= b.len() {
                    Some((b.subrange(p + 2, p + 2 + l), p + 2 + l))
                } else {
                    None
                }
            } else {
                None
            }
        } else {
            None
        }
    } else {
        None
    }
}

/// Parse a whole record: the three stacks, with nothing left over.
pub open spec fn spec_parse(b: Seq<u8>) -> Option<Towers> {
    if b.len() > 0 && b[0] == 0x83 {
        match parse_chunk(b, 1) {
            Some((s1, p1)) => match parse_chunk(b, p1) {
                Some((s2, p2)) => match parse_chunk(b, p2) {
                    Some((s3, p3)) => if p3 == b.len() {
                        Some(Towers { t1: s1, t2: s2, t3: s3 })
                    } else {
                        None
                    },
                    None => None,
                },
                None => None,
            },
            None => None,
        }
    } else {
        None
    }
}

/// A chunk written by the encoder reads back as the stack it came from.
proof fn lemma_parse_chunk_encoded(b: Seq<u8>, p: int, s: Seq<u8>)
    requires
        s.len() <= 255,
        0 <= p,
        p + enc_chunk(s).len() <= b.len(),
        b.subrange(p, p + enc_chunk(s).len() as int) == enc_chunk(s),
    ensures
        parse_chunk(b, p) == Some((s, p + enc_chunk(s).len() as int)),
{
    let c = enc_chunk(s);
    let q = p + c.len() as int;
    assert(b[p] == c[0]) by {
        assert(b.subrange(p, q)[0] == b[p]);
    }
    if s.len() < 24 {
        assert(b[p] == (0x40 + s.len()) as u8);
        assert(b.subrange(p + 1, q) =~= s) by {
            assert forall|i: int| 0 <= i < s.len() implies b.subrange(p + 1, q)[i] == s[i] by {
                assert(b.subrange(p, q)[i + 1] == b[p + i + 1]);
                assert(c[i + 1] == s[i]);
            }
        }
    } else {
        assert(b[p] == 0x58);
        assert(b[p + 1] == s.len() as u8) by {
            assert(b.subrange(p, q)[1] == b[p + 1]);
        }
        assert(b.subrange(p + 2, q) =~= s) by {
            assert forall|i: int| 0 <= i < s.len() implies b.subrange(p + 2, q)[i] == s[i] by {
                assert(b.subrange(p, q)[i + 2] == b[p + i + 2]);
                assert(c[i + 2] == s[i]);
            }
        }
    }
}

/// Law: decoding inverts encoding — every layout that fits the wire format
/// round-trips through its serialization unchanged.
pub proof fn lemma_round_trip(t: Towers)
    requires
        t.bounded(),
    ensures
        spec_parse(spec_encode(t)) == Some(t),
{
    let b = spec_encode(t);
    let c1 = enc_chunk(t.t1);
    let c2 = enc_chunk(t.t2);
    let c3 = enc_chunk(t.t3);
    let p1 = 1 + c1.len() as int;
    let p2 = p1 + c2.len() as int;
    let p3 = p2 + c3.len() as int;
    assert(b.len() == p3);
    assert(b[0] == 0x83);
    assert(b.subrange(1, p1) =~= c1);
    assert(b.subrange(p1, p2) =~= c2);
    assert(b.subrange(p2, p3) =~= c3);
    lemma_parse_chunk_encoded(b, 1, t.t1);
    lemma_parse_chunk_encoded(b, p1, t.t2);
    lemma_parse_chunk_encoded(b, p2, t.t3);
    assert(spec_parse(b) == Some(Towers { t1: t.t1, t2: t.t2, t3: t.t3 }));
    assert(Towers { t1: t.t1, t2: t.t2, t3: t.t3 } =~= t);
}

/// Law: the serialization is a function of the stacks alone, so semantically
/// equal states — and in particular a state a rejected move left unchanged —
/// yield bytewise identical records, and with them identical content
/// addresses.
pub proof fn lemma_encode_deterministic(a: Towers, b: Towers)
    requires
        a.t1 == b.t1,
        a.t2 == b.t2,
        a.t3 == b.t3,
    ensures
        spec_encode(a) == spec_encode(b),
{
    assert(a =~= b);
}

/// A chunk the parser accepts occupies exactly the bytes its stack encodes to.
proof fn lemma_parse_chunk_canonical(b: Seq<u8>, p: int)
    ensures
        parse_chunk(b, p) matches Some(sq) ==> {
            &&& sq.0.len() <= 255
            &&& p < sq.1 <= b.len()
            &&& b.subrange(p, sq.1) == enc_chunk(sq.0)
        },
{
    if parse_chunk(b, p) is Some {
        let sq = parse_chunk(b, p)->Some_0;
        let s = sq.0;
        let q = sq.1;
        let h = b[p];
        if 0x40 <= h <= 0x57 {
            assert(b.subrange(p, q) =~= enc_chunk(s)) by {
                assert(enc_chunk(s)[0] == (0x40 + s.len()) as u8);
                assert forall|i: int| 0 <= i < q - p implies b.subrange(p, q)[i] == enc_chunk(s)[i]
                    by {
                    if i > 0 {
                        assert(s[i - 1] == b[p + i]);
                    }
                }
            }
        } else {
            assert(b.subrange(p, q) =~= enc_chunk(s)) by {
                assert(enc_chunk(s)[0] == 0x58);
                assert(enc_chunk(s)[1] == s.len() as u8);
                assert forall|i: int| 0 <= i < q - p implies b.subrange(p, q)[i] == enc_chunk(s)[i]
                    by {
                    if i > 1 {
                        assert(s[i - 2] == b[p + i]);
                    }
                }
            }
        }
    }
}

/// Law: the wire format is canonical — whatever the parser accepts is exactly
/// the serialization of the layout it returns, so equal layouts always sit
/// under equal bytes (and so under equal content addresses).
pub proof fn lemma_parse_canonical(b: Seq<u8>)
    ensures
        spec_parse(b) matches Some(t) ==> t.bounded() && spec_encode(t) == b,
{
    if spec_parse(b) is Some {
        let sq1 = parse_chunk(b, 1)->Some_0;
        let sq2 = parse_chunk(b, sq1.1)->Some_0;
        let sq3 = parse_chunk(b, sq2.1)->Some_0;
        lemma_parse_chunk_canonical(b, 1);
        lemma_parse_chunk_canonical(b, sq1.1);
        lemma_parse_chunk_canonical(b, sq2.1);
        let t = spec_parse(b)->Some_0;
        assert(spec_encode(t) =~= b) by {
            assert(b.subrange(1, sq1.1) == enc_chunk(t.t1));
            assert(b.subrange(sq1.1, sq2.1) == enc_chunk(t.t2));
            assert(b.subrange(sq2.1, sq3.1) == enc_chunk(t.t3));
            assert forall|i: int| 0 <= i < b.len() implies spec_encode(t)[i] == b[i] by {
                if 1 <= i < sq1.1 {
                    assert(b.subrange(1, sq1.1)[i - 1] == b[i]);
                } else if sq1.1 <= i < sq2.1 {
                    assert(b.subrange(sq1.1, sq2.1)[i - sq1.1] == b[i]);
                } else if sq2.1 <= i < sq3.1 {
                    assert(b.subrange(sq2.1, sq3.1)[i - sq2.1] == b[i]);
                }
            }
        }
    }
}

/// Copy `len` bytes of `b` starting at `start` into a fresh vector.
fn copy_range(b: &Vec<u8>, start: usize, len: usize) -> (r: Vec<u8>)
    requires
        start + len <= b@.len(),
    ensures
        r@ == b@.subrange(start as int, start as int + len as int),
{
    let bound = b.len();
    let mut out: Vec<u8> = Vec::new();
    proof {
        assert(out@ =~= b@.subrange(start as int, start as int));
    }
    let mut i: usize = 0;
    while i < len
        invariant
            i <= len,
            start + len <= b@.len(),
            bound == b@.len(),
            out@ == b@.subrange(start as int, start as int + i as int),
        decreases len - i,
    {
        out.push(b[start + i]);
        i = i + 1;
        proof {
            assert(out@ =~= b@.subrange(start as int, start as int + i as int));
        }
    }
    out
}

/// Read one encoded stack at position `p`, as `parse_chunk` describes.
fn read_chunk(b: &Vec<u8>, p: usize) -> (r: Option<(Vec<u8>, usize)>)
    ensures
        r matches Some(v) ==> parse_chunk(b@, p as int) == Some((v.0@, v.1 as int)),
        r is None ==> parse_chunk(b@, p as int) is None,
{
    if p >= b.len() {
        return None;
    }
    let h = b[p];
    if 0x40 <= h && h <= 0x57 {
        let l = (h - 0x40) as usize;
        if b.len() - (p + 1) >= l {
            let s = copy_range(b, p + 1, l);
            Some((s, p + 1 + l))
        } else {
            None
        }
    } else if h == 0x58 {
        if b.len() - p < 2 {
            return None;
        }
        let l = b[p + 1] as usize;
        if l >= 24 && b.len() - (p + 2) >= l {
            let s = copy_range(b, p + 2, l);
            Some((s, p + 2 + l))
        } else {
            None
        }
    } else {
        None
    }
}

impl State {
    /// Serialize into the canonical wire bytes.
    pub fn encode(&self) -> (r: Vec<u8>)
        requires
            self@.bounded(),
        ensures
            r@ == spec_encode(self@),
    {
        let mut out: Vec<u8> = Vec::new();
        out.push(0x83);
        proof {
            assert(out@ =~= seq![0x83u8]);
        }
        push_chunk(&mut out, &self.tower1);
        push_chunk(&mut out, &self.tower2);
        push_chunk(&mut out, &self.tower3);
        proof {
            assert(out@ =~= spec_encode(self@));
        }
        out
    }

    /// Parse canonical wire bytes back into a state. Fails on exactly the
    /// byte strings that no layout encodes to.
    pub fn decode(b: &Vec<u8>) -> (r: Result<State, StateError>)
        ensures
            spec_parse(b@) matches Some(t) ==> (r matches Ok(s) && s@ == t),
            spec_parse(b@) is None ==> r == Err::<State, StateError>(StateError::CorruptState),
    {
        if b.len() == 0 {
            return Err(StateError::CorruptState);
        }
        if b[0] != 0x83 {
            return Err(StateError::CorruptState);
        }
        let (t1, p1) = match read_chunk(b, 1) {
            Some(v) => v,
            None => {
                return Err(StateError::CorruptState);
            },
        };
        let (t2, p2) = match read_chunk(b, p1) {
            Some(v) => v,
            None => {
                return Err(StateError::CorruptState);
            },
        };
        let (t3, p3) = match read_chunk(b, p2) {
            Some(v) => v,
            None => {
                return Err(StateError::CorruptState);
            },
        };
        if p3 != b.len() {
            return Err(StateError::CorruptState);
        }
        Ok(State { tower1: t1, tower2: t2, tower3: t3 })
    }
}

/// Append the encoding of one stack to `out`.
fn push_chunk(out: &mut Vec<u8>, stack: &Vec<u8>)
    requires
        stack@.len() <= 255,
    ensures
        final(out)@ == old(out)@ + enc_chunk(stack@),
{
    if stack.len() < 24 {
        out.push(0x40 + stack.len() as u8);
    } else {
        out.push(0x58);
        out.push(stack.len() as u8);
    }
    proof {
        assert(out@ =~= old(out)@ + enc_header(stack@.len() as int) + stack@.subrange(0, 0));
    }
    let mut i: usize = 0;
    while i < stack.len()
        invariant
            i <= stack@.len(),
            stack@.len() <= 255,
            out@ == old(out)@ + enc_header(stack@.len() as int) + stack@.subrange(0, i as int),
        decreases stack@.len() - i,
    {
        out.push(stack[i]);
        i = i + 1;
        proof {
            assert(out@ =~= old(out)@ + enc_header(stack@.len() as int) + stack@.subrange(
                0,
                i as int,
            ));
        }
    }
    proof {
        assert(stack@.subrange(0, stack@.len() as int) =~= stack@);
        assert(out@ =~= old(out)@ + enc_chunk(stack@));
    }
}

} // verus!
