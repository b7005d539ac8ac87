//! Companion alignment paths: an audio path maps to its side-car alignment
//! path by swapping a trailing ".wav" extension for ".ali". A path without
//! that extension is left alone, and so is any ".wav" in the middle of a
//! path.

use vstd::prelude::*;
use vstd::slice::slice_to_vec;

verus! {

/// ASCII '.'.
pub const B_DOT: u8 = 46;

/// ASCII 'w'.
pub const B_W: u8 = 119;

/// ASCII 'a'.
pub const B_A: u8 = 97;

/// ASCII 'v'.
pub const B_V: u8 = 118;

/// ASCII 'l'.
pub const B_L: u8 = 108;

/// ASCII 'i'.
pub const B_I: u8 = 105;

/// The audio extension, with its dot: ".wav".
pub open spec fn wav_ext() -> Seq<u8> {
    seq![B_DOT, B_W, B_A, B_V]
}

/// The alignment extension, with its dot: ".ali".
pub open spec fn ali_ext() -> Seq<u8> {
    seq![B_DOT, B_A, B_L, B_I]
}

/// Whether a path ends with the audio extension ".wav".
pub open spec fn has_wav_ext(s: Seq<u8>) -> bool {
    s.len() >= 4 && s.skip(s.len() - 4) == wav_ext()
}

/// The side-car alignment path of an audio path: a trailing ".wav" becomes
/// ".ali"; any other path, and any interior ".wav", is left untouched.
pub open spec fn ali_of(s: Seq<u8>) -> Seq<u8> {
    if has_wav_ext(s) {
        s.take(s.len() - 4) + ali_ext()
    } else {
        s
    }
}

/// Derives the side-car alignment path of an audio path.
pub fn ali_path(path: &[u8]) -> (r: Vec<u8>)
    ensures
        r@ == ali_of(path@),
{
    let n = path.len();
    if n >= 4 && path[n - 4] == B_DOT && path[n - 3] == B_W && path[n - 2] == B_A && path[n - 1]
        == B_V {
        proof {
            assert(path@.skip(n - 4) =~= wav_ext());
        }
        let mut out: Vec<u8> = Vec::new();
        let mut i: usize = 0;
        while i < n - 4
            invariant
                n == path@.len(),
                n >= 4,
                i <= n - 4,
                out@ == path@.subrange(0, i as int),
            decreases n - 4 - i,
        {
            out.push(path[i]);
            proof {
                assert(out@ =~= path@.subrange(0, i + 1));
            }
            i += 1;
        }
        out.push(B_DOT);
        out.push(B_A);
        out.push(B_L);
        out.push(B_I);
        proof {
            assert(out@ =~= path@.take(n - 4) + ali_ext());
        }
        out
    } else {
        proof {
            if path@.len() >= 4 {
                let tail = path@.skip(n - 4);
                assert(tail != wav_ext()) by {
                    if tail == wav_ext() {
                        assert(tail[0] == path@[n - 4]);
                        assert(tail[1] == path@[n - 3]);
                        assert(tail[2] == path@[n - 2]);
                        assert(tail[3] == path@[n - 1]);
                    }
                }
            }
        }
        slice_to_vec(path)
    }
}

} // verus!
