//! Accumulates transport bytes and hands out one complete CRLF-terminated
//! command line at a time; an incomplete trailing line stays buffered until
//! more bytes arrive.
use vstd::prelude::*;

verus! {

/// The index of the first CRLF pair in `s`, or -1 if none is present.
pub open spec fn first_crlf(s: Seq<u8>) -> int
    decreases s.len(),
{
    if s.len() < 2 {
        -1
    } else if s[0] == 13 && s[1] == 10 {
        0
    } else {
        let r = first_crlf(s.drop_first());
        if r < 0 {
            -1
        } else {
            r + 1
        }
    }
}

/// `first_crlf` names the least index at which a CRLF pair starts.
pub proof fn lemma_first_crlf(s: Seq<u8>)
    ensures
        first_crlf(s) >= 0 ==> {
            &&& first_crlf(s) + 1 < s.len()
            &&& s[first_crlf(s)] == 13 && s[first_crlf(s) + 1] == 10
            &&& forall|j: int| 0 <= j < first_crlf(s) ==> !(#[trigger] s[j] == 13 && s[j + 1] == 10)
        },
        first_crlf(s) < 0 ==> forall|j: int|
            0 <= j && j + 1 < s.len() ==> !(#[trigger] s[j] == 13 && s[j + 1] == 10),
    decreases s.len(),
{
    if s.len() < 2 {
    } else if s[0] == 13 && s[1] == 10 {
    } else {
        let t = s.drop_first();
        lemma_first_crlf(t);
        if first_crlf(t) >= 0 {
            assert forall|j: int| 0 <= j < first_crlf(s) implies !(#[trigger] s[j] == 13 && s[j + 1]
                == 10) by {
                if j > 0 {
                    assert(t[j - 1] == s[j] && t[j] == s[j + 1]);
                    assert(!(t[j - 1] == 13 && t[j] == 10));
                }
            }
        } else {
            assert forall|j: int| 0 <= j && j + 1 < s.len() implies !(#[trigger] s[j] == 13 && s[j
                + 1] == 10) by {
                if j > 0 {
                    assert(t[j - 1] == s[j] && t[j] == s[j + 1]);
                    assert(!(t[j - 1] == 13 && t[j] == 10));
                }
            }
        }
    }
}

/// If `i` starts a CRLF pair with none before it, it is the first.
pub proof fn lemma_first_crlf_is(s: Seq<u8>, i: int)
    requires
        0 <= i,
        i + 1 < s.len(),
        s[i] == 13 && s[i + 1] == 10,
        forall|j: int| 0 <= j < i ==> !(#[trigger] s[j] == 13 && s[j + 1] == 10),
    ensures
        first_crlf(s) == i,
{
    lemma_first_crlf(s);
    if first_crlf(s) < 0 {
        assert(!(s[i] == 13 && s[i + 1] == 10));
    } else if first_crlf(s) < i {
        assert(!(s[first_crlf(s)] == 13 && s[first_crlf(s) + 1] == 10));
    } else if first_crlf(s) > i {
        assert(!(s[i] == 13 && s[i + 1] == 10));
    }
}

/// Appending bytes does not move an already complete first line.
pub proof fn lemma_first_crlf_prefix(a: Seq<u8>, b: Seq<u8>)
    requires
        first_crlf(a) >= 0,
    ensures
        first_crlf(a + b) == first_crlf(a),
{
    lemma_first_crlf(a);
    let i = first_crlf(a);
    let s = a + b;
    assert(s[i] == 13 && s[i + 1] == 10);
    assert forall|j: int| 0 <= j < i implies !(#[trigger] s[j] == 13 && s[j + 1] == 10) by {
        assert(s[j] == a[j] && s[j + 1] == a[j + 1]);
    }
    lemma_first_crlf_is(s, i);
}

/// Buffers bytes read from the transport until a complete line is present.
pub struct FrameReader {
    buf: Vec<u8>,
}

impl View for FrameReader {
    type V = Seq<u8>;

    closed spec fn view(&self) -> Seq<u8> {
        self.buf@
    }
}

impl FrameReader {
    /// A reader with nothing buffered.
    pub fn new() -> (r: FrameReader)
        ensures
            r@ == Seq::<u8>::empty(),
    {
        FrameReader { buf: Vec::new() }
    }

    /// Appends freshly read transport bytes to the buffer.
    pub fn push(&mut self, data: &[u8])
        ensures
            final(self)@ == old(self)@ + data@,
    {
        crate::text::append_bytes(&mut self.buf, data);
    }

    /// Removes and returns the first complete line, without its CRLF,
    /// keeping everything after the CRLF buffered; returns `None`, and
    /// changes nothing, while no complete line is buffered.
    pub fn take_line(&mut self) -> (r: Option<Vec<u8>>)
        ensures
            match r {
                Some(line) => {
                    &&& first_crlf(old(self)@) >= 0
                    &&& line@ == old(self)@.subrange(0, first_crlf(old(self)@))
                    &&& final(self)@ == old(self)@.subrange(
                        first_crlf(old(self)@) + 2,
                        old(self)@.len() as int,
                    )
                },
                None => first_crlf(old(self)@) < 0 && final(self)@ == old(self)@,
            },
    {
        let n = self.buf.len();
        if n >= 2 {
            let mut i: usize = 0;
            while i < n - 1
                invariant
                    self@ == old(self)@,
                    n == self@.len(),
                    2 <= n,
                    i <= n - 1,
                    forall|j: int| 0 <= j < i ==> !(#[trigger] self@[j] == 13 && self@[j + 1] == 10),
                decreases n - i,
            {
                if self.buf[i] == 13 && self.buf[i + 1] == 10 {
                    proof {
                        lemma_first_crlf(self@);
                        assert(first_crlf(self@) == i);
                    }
                    let mut line: Vec<u8> = Vec::new();
                    let mut k: usize = 0;
                    while k < i
                        invariant
                            self@ == old(self)@,
                            k <= i,
                            i < self@.len(),
                            line@ == self@.subrange(0, k as int),
                        decreases i - k,
                    {
                        line.push(self.buf[k]);
                        proof {
                            assert(self@.subrange(0, k + 1) =~= self@.subrange(0, k as int).push(
                                self@[k as int],
                            ));
                        }
                        k = k + 1;
                    }
                    let mut rest: Vec<u8> = Vec::new();
                    let mut m: usize = i + 2;
                    proof {
                        assert(rest@ =~= self@.subrange(i + 2, i + 2));
                    }
                    while m < n
                        invariant
                            self@ == old(self)@,
                            i + 2 <= m <= n,
                            n == self@.len(),
                            rest@ == self@.subrange(i + 2, m as int),
                        decreases n - m,
                    {
                        rest.push(self.buf[m]);
                        proof {
                            assert(self@.subrange(i + 2, m + 1) =~= self@.subrange(
                                i + 2,
                                m as int,
                            ).push(self@[m as int]));
                        }
                        m = m + 1;
                    }
                    self.buf = rest;
                    return Some(line);
                }
                i = i + 1;
            }
            proof {
                lemma_first_crlf(self@);
                assert(first_crlf(self@) < 0) by {
                    if first_crlf(self@) >= 0 {
                        assert(self@[first_crlf(self@)] == 13 && self@[first_crlf(self@) + 1] == 10);
                    }
                }
            }
        }
        proof {
            lemma_first_crlf(self@);
        }
        None
    }
}

} // verus!
