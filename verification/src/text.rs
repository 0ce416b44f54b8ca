//! UTF-8 validation for command arguments.
//!
//! Keys, fields and members arrive as bulk strings; the command layer
//! requires them to be well-formed UTF-8 and rejects anything else.
//! `is_utf8` states well-formedness byte by byte, following the
//! standard leading-byte ranges that exclude overlong encodings and
//! surrogates.

use vstd::prelude::*;

verus! {

/// A continuation byte: high bits `10`.
pub open spec fn utf8_cont(b: u8) -> bool {
    128 <= b <= 191
}

/// Well-formed UTF-8.
pub open spec fn is_utf8(s: Seq<u8>) -> bool
    decreases s.len(),
{
    if s.len() == 0 {
        true
    } else {
        let b0 = s[0];
        if b0 < 128 {
            is_utf8(s.skip(1))
        } else if 194 <= b0 <= 223 {
            s.len() >= 2 && utf8_cont(s[1]) && is_utf8(s.skip(2))
        } else if b0 == 224 {
            s.len() >= 3 && 160 <= s[1] <= 191 && utf8_cont(s[2]) && is_utf8(s.skip(3))
        } else if 225 <= b0 <= 236 || 238 <= b0 <= 239 {
            s.len() >= 3 && utf8_cont(s[1]) && utf8_cont(s[2]) && is_utf8(s.skip(3))
        } else if b0 == 237 {
            s.len() >= 3 && 128 <= s[1] <= 159 && utf8_cont(s[2]) && is_utf8(s.skip(3))
        } else if b0 == 240 {
            s.len() >= 4 && 144 <= s[1] <= 191 && utf8_cont(s[2]) && utf8_cont(s[3]) && is_utf8(
                s.skip(4),
            )
        } else if 241 <= b0 <= 243 {
            s.len() >= 4 && utf8_cont(s[1]) && utf8_cont(s[2]) && utf8_cont(s[3]) && is_utf8(
                s.skip(4),
            )
        } else if b0 == 244 {
            s.len() >= 4 && 128 <= s[1] <= 143 && utf8_cont(s[2]) && utf8_cont(s[3]) && is_utf8(
                s.skip(4),
            )
        } else {
            false
        }
    }
}

/// Check well-formed UTF-8.
pub fn validate_utf8(s: &[u8]) -> (r: bool)
    ensures
        r == is_utf8(s@),
{
    let n = s.len();
    proof {
        assert(s@.skip(0) =~= s@);
    }
    let mut i: usize = 0;
    while i < n
        invariant
            0 <= i <= n,
            n == s@.len(),
            is_utf8(s@) == is_utf8(s@.skip(i as int)),
        decreases n - i,
    {
        let ghost t = s@.skip(i as int);
        proof {
            assert(t[0] == s@[i as int]);
            assert(t.len() == n - i);
        }
        let b0 = s[i];
        let width: usize = if b0 < 128 {
            1
        } else if 194 <= b0 && b0 <= 223 {
            if n - i < 2 || !(128 <= s[i + 1] && s[i + 1] <= 191) {
                proof {
                    if n - i >= 2 {
                        assert(t[1] == s@[i as int + 1]);
                    }
                }
                return false;
            }
            2
        } else if 224 <= b0 && b0 <= 239 {
            if n - i < 3 {
                return false;
            }
            let b1 = s[i + 1];
            let b2 = s[i + 2];
            proof {
                assert(t[1] == s@[i as int + 1]);
                assert(t[2] == s@[i as int + 2]);
            }
            let lo: u8 = if b0 == 224 {
                160
            } else {
                128
            };
            let hi: u8 = if b0 == 237 {
                159
            } else {
                191
            };
            if !(lo <= b1 && b1 <= hi) || !(128 <= b2 && b2 <= 191) {
                return false;
            }
            3
        } else if 240 <= b0 && b0 <= 244 {
            if n - i < 4 {
                return false;
            }
            let b1 = s[i + 1];
            let b2 = s[i + 2];
            let b3 = s[i + 3];
            proof {
                assert(t[1] == s@[i as int + 1]);
                assert(t[2] == s@[i as int + 2]);
                assert(t[3] == s@[i as int + 3]);
            }
            let lo: u8 = if b0 == 240 {
                144
            } else {
                128
            };
            let hi: u8 = if b0 == 244 {
                143
            } else {
                191
            };
            if !(lo <= b1 && b1 <= hi) || !(128 <= b2 && b2 <= 191) || !(128 <= b3 && b3 <= 191) {
                return false;
            }
            4
        } else {
            return false;
        };
        proof {
            assert(t.skip(width as int) =~= s@.skip(i + width));
        }
        i = i + width;
    }
    proof {
        assert(s@.skip(n as int) =~= Seq::<u8>::empty());
    }
    true
}

} // verus!
