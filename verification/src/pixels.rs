//! The pixel buffer normalizer.
//!
//! A native bitmap arrives as a raw byte buffer, 4 bytes per pixel, possibly
//! bottom-up and possibly with its red and blue channels swapped relative to
//! canonical RGBA. Normalization brings the rows top-down, reorders the
//! channels, and resolves alpha: when every single alpha byte in the whole
//! buffer is zero the bitmap carries no real alpha data and every pixel is
//! made fully opaque; otherwise alpha — including partial transparency — is
//! left untouched. The whole buffer is scanned, not sampled: correctness over
//! speed, since thumbnails are small. A buffer whose length does not match
//! its declared dimensions is rejected outright.

use vstd::prelude::*;
use crate::errors::EngineError;

verus! {

/// A buffer with the 1st and 3rd byte of every 4-byte pixel exchanged.
pub open spec fn swap_rb(s: Seq<u8>) -> Seq<u8>
    recommends
        s.len() % 4 == 0,
{
    Seq::new(
        s.len(),
        |i: int|
            if i % 4 == 0 {
                s[i + 2]
            } else if i % 4 == 2 {
                s[i - 2]
            } else {
                s[i]
            },
    )
}

/// Whether every alpha byte (every 4th byte) in the buffer is zero.
pub open spec fn all_alpha_zero(s: Seq<u8>) -> bool {
    forall|i: int| 0 <= i < s.len() && i % 4 == 3 ==> #[trigger] s[i] == 0
}

/// A buffer with every alpha byte forced to fully opaque.
pub open spec fn force_opaque(s: Seq<u8>) -> Seq<u8> {
    Seq::new(
        s.len(),
        |i: int|
            if i % 4 == 3 {
                255
            } else {
                s[i]
            },
    )
}

/// A buffer with its pixel rows in reverse order (bottom-up turned top-down).
pub open spec fn flip_rows(s: Seq<u8>, width: nat, height: nat) -> Seq<u8>
    recommends
        s.len() == width * height * 4,
{
    Seq::new(
        s.len(),
        |i: int|
            {
                let rb = (width * 4) as int;
                s[((height as int) - 1 - i / rb) * rb + i % rb]
            },
    )
}

/// The canonical top-down RGBA buffer for a raw native bitmap: rows brought
/// top-down, channels reordered if the native order is reversed, and alpha
/// forced opaque exactly when no pixel carried any alpha at all.
pub open spec fn normalized(
    s: Seq<u8>,
    width: nat,
    height: nat,
    swap_channels: bool,
    bottom_up: bool,
) -> Seq<u8>
    recommends
        s.len() == width * height * 4,
{
    let oriented = if bottom_up {
        flip_rows(s, width, height)
    } else {
        s
    };
    let channeled = if swap_channels {
        swap_rb(oriented)
    } else {
        oriented
    };
    if all_alpha_zero(channeled) {
        force_opaque(channeled)
    } else {
        channeled
    }
}

/// Law: alpha forcing never fires for a buffer where some pixel still carries
/// alpha — partial transparency survives normalization unchanged, whatever
/// the channel order or row orientation did.
pub proof fn lemma_partial_alpha_preserved(
    s: Seq<u8>,
    width: nat,
    height: nat,
    swap_channels: bool,
    bottom_up: bool,
)
    requires
        s.len() == width * height * 4,
        exists|i: int| 0 <= i < s.len() && i % 4 == 3 && s[i] != 0,
    ensures
        ({
            let oriented = if bottom_up {
                flip_rows(s, width, height)
            } else {
                s
            };
            normalized(s, width, height, swap_channels, bottom_up) == (if swap_channels {
                swap_rb(oriented)
            } else {
                oriented
            }) && forall|i: int|
                0 <= i < s.len() && i % 4 == 3 ==> normalized(
                    s,
                    width,
                    height,
                    swap_channels,
                    bottom_up,
                )[i] == oriented[i]
        }),
{
    let oriented = if bottom_up {
        flip_rows(s, width, height)
    } else {
        s
    };
    let channeled = if swap_channels {
        swap_rb(oriented)
    } else {
        oriented
    };
    let w = choose|i: int| 0 <= i < s.len() && i % 4 == 3 && s[i] != 0;
    if bottom_up {
        let rb = width * 4;
        let row = w / (rb as int);
        let off = w % (rb as int);
        assert(rb > 0) by {
            if width == 0 {
                assert(s.len() == 0) by (nonlinear_arith)
                    requires
                        s.len() == width * height * 4,
                        width == 0,
                ;
            }
        }
        let j = (height - 1 - row) * rb + off;
        assert(0 <= row < height && 0 <= off < rb) by (nonlinear_arith)
            requires
                0 <= w < width * height * 4,
                rb == width * 4,
                rb > 0,
                row == w / (rb as int),
                off == w % (rb as int),
        ;
        assert(0 <= j < s.len()) by (nonlinear_arith)
            requires
                s.len() == width * height * 4,
                rb == width * 4,
                0 <= row < height,
                0 <= off < rb,
                j == (height - 1 - row) * rb + off,
        ;
        assert(oriented[j] == s[(height - 1 - j / (rb as int)) * rb + j % (rb as int)]);
        assert(j / (rb as int) == height - 1 - row && j % (rb as int) == off) by (nonlinear_arith)
            requires
                rb > 0,
                0 <= row < height,
                0 <= off < rb,
                j == (height - 1 - row) * rb + off,
        ;
        assert(w == row * (rb as int) + off) by {
            vstd::arithmetic::div_mod::lemma_fundamental_div_mod(w, rb as int);
        }
        assert((height - 1 - (height - 1 - row)) * (rb as int) + off == row * (rb as int) + off);
        assert(oriented[j] == s[w]);
        let q = height as int - 1 - row;
        let m = off / 4;
        let a = w / 4;
        assert(w == 4 * a + 3) by {
            vstd::arithmetic::div_mod::lemma_fundamental_div_mod(w, 4);
        }
        let b = a - row * (width as int);
        assert(off == 4 * b + 3) by (nonlinear_arith)
            requires
                w == 4 * a + 3,
                w == row * ((width * 4) as int) + off,
                b == a - row * (width as int),
        ;
        assert(b >= 0);
        assert(off % 4 == 3) by (nonlinear_arith)
            requires
                off == 4 * b + 3,
                b >= 0,
        ;
        assert(off == 4 * m + 3) by (nonlinear_arith)
            requires
                off % 4 == 3,
                m == off / 4,
                off >= 0,
        ;
        assert(j == 4 * (q * (width as int) + m) + 3) by (nonlinear_arith)
            requires
                j == q * ((width * 4) as int) + off,
                off == 4 * m + 3,
        ;
        assert(j % 4 == 3) by (nonlinear_arith)
            requires
                j == 4 * (q * (width as int) + m) + 3,
                q * (width as int) + m >= 0,
        ;
        assert(channeled[j] == oriented[j]);
        assert(!all_alpha_zero(channeled));
    } else {
        assert(channeled[w] == oriented[w]);
        assert(!all_alpha_zero(channeled));
    }
}

fn flip_buffer(pixels: &Vec<u8>, width: u32, height: u32) -> (out: Vec<u8>)
    requires
        pixels@.len() == (width as nat) * (height as nat) * 4,
    ensures
        out@ == flip_rows(pixels@, width as nat, height as nat),
{
    let n = pixels.len();
    let mut out: Vec<u8> = Vec::new();
    if n == 0 {
        proof {
            assert(out@ =~= flip_rows(pixels@, width as nat, height as nat));
        }
        return out;
    }
    proof {
        assert(height >= 1 && width >= 1) by (nonlinear_arith)
            requires
                (width as nat) * (height as nat) * 4 > 0,
        ;
        assert((width as nat) * 4 <= (width as nat) * (height as nat) * 4) by (nonlinear_arith)
            requires
                height >= 1,
        ;
    }
    let rb: usize = (width as usize) * 4;
    let mut i: usize = 0;
    while i < n
        invariant
            i <= n,
            n == pixels@.len(),
            n == (width as nat) * (height as nat) * 4,
            rb == (width as nat) * 4,
            rb >= 1,
            out@.len() == i,
            forall|k: int|
                0 <= k < i ==> out@[k] == flip_rows(pixels@, width as nat, height as nat)[k],
        decreases n - i,
    {
        let row = i / rb;
        let off = i % rb;
        proof {
            assert(row < height && (height as int - 1 - row) * rb + off < n) by (nonlinear_arith)
                requires
                    0 <= i < n,
                    n == (width as nat) * (height as nat) * 4,
                    rb == (width as nat) * 4,
                    rb >= 1,
                    row as int == (i as int) / (rb as int),
                    off as int == (i as int) % (rb as int),
            ;
        }
        let src = (height as usize - 1 - row) * rb + off;
        out.push(pixels[src]);
        i = i + 1;
    }
    proof {
        assert(out@ =~= flip_rows(pixels@, width as nat, height as nat));
    }
    out
}

/// Normalizes a raw native bitmap into canonical top-down RGBA, rejecting a
/// buffer whose length disagrees with the declared dimensions.
pub fn normalize_pixels(
    width: u32,
    height: u32,
    pixels: Vec<u8>,
    swap_channels: bool,
    bottom_up: bool,
) -> (r: Result<Vec<u8>, EngineError>)
    ensures
        match r {
            Ok(out) => pixels@.len() == (width as nat) * (height as nat) * 4 && out@ == normalized(
                pixels@,
                width as nat,
                height as nat,
                swap_channels,
                bottom_up,
            ),
            Err(e) => e == EngineError::BufferShapeMismatch && pixels@.len() != (width as nat) * (
            height as nat) * 4,
        },
{
    proof {
        assert((width as int) * (height as int) * 4 < u128::MAX) by (nonlinear_arith)
            requires
                width as int <= u32::MAX as int,
                height as int <= u32::MAX as int,
        ;
    }
    let need: u128 = (width as u128) * (height as u128) * 4;
    if (pixels.len() as u128) != need {
        return Err(EngineError::BufferShapeMismatch);
    }
    let mut buf = if bottom_up {
        flip_buffer(&pixels, width, height)
    } else {
        pixels
    };
    let ghost oriented = buf@;
    let n = buf.len();
    proof {
        assert(n % 4 == 0) by (nonlinear_arith)
            requires
                n == (width as nat) * (height as nat) * 4,
        ;
    }
    if swap_channels {
        let mut p: usize = 0;
        while p < n / 4
            invariant
                p <= n / 4,
                n == buf@.len(),
                n % 4 == 0,
                oriented.len() == n,
                forall|k: int| 0 <= k < 4 * p ==> buf@[k] == swap_rb(oriented)[k],
                forall|k: int| 4 * p <= k < n ==> buf@[k] == oriented[k],
            decreases n / 4 - p,
        {
            let base = 4 * p;
            proof {
                assert(4 * p + 3 < n) by (nonlinear_arith)
                    requires
                        p < n / 4,
                        n % 4 == 0,
                ;
            }
            let b0 = buf[base];
            let b2 = buf[base + 2];
            buf[base] = b2;
            buf[base + 2] = b0;
            proof {
                assert forall|k: int| 0 <= k < 4 * (p + 1) implies buf@[k] == swap_rb(oriented)[k]
                    by {
                    assert(swap_rb(oriented).len() == n);
                    if k == base {
                        assert(buf@[k] == oriented[k + 2]) by (nonlinear_arith)
                            requires
                                buf@[k] == b2,
                                b2 == oriented[4 * p + 2],
                                k == 4 * p,
                        ;
                        assert(k % 4 == 0) by (nonlinear_arith)
                            requires
                                k == 4 * p,
                                p >= 0,
                        ;
                    } else if k == base + 2 {
                        assert(buf@[k] == oriented[k - 2]);
                        assert(k % 4 == 2) by (nonlinear_arith)
                            requires
                                k == 4 * p + 2,
                                p >= 0,
                        ;
                    } else if k > base {
                        assert(k == 4 * p + 1 || k == 4 * p + 3);
                        assert(k % 4 == 1 || k % 4 == 3) by (nonlinear_arith)
                            requires
                                k == 4 * p + 1 || k == 4 * p + 3,
                                p >= 0,
                        ;
                        assert(buf@[k] == oriented[k]);
                    }
                }
            }
            p = p + 1;
        }
        proof {
            assert(4 * (n / 4) == n);
            assert(buf@ =~= swap_rb(oriented));
        }
    }
    let ghost channeled = buf@;
    let mut has_alpha = false;
    let mut p: usize = 0;
    while p < n / 4 && !has_alpha
        invariant
            p <= n / 4,
            n == buf@.len(),
            n % 4 == 0,
            buf@ == channeled,
            !has_alpha ==> forall|k: int| 0 <= k < 4 * p && k % 4 == 3 ==> #[trigger] buf@[k] == 0,
            has_alpha ==> !all_alpha_zero(channeled),
        decreases
                n / 4 - p,
                if has_alpha {
                    0int
                } else {
                    1int
                },
    {
        proof {
            assert(4 * p + 3 < n) by (nonlinear_arith)
                requires
                    p < n / 4,
                    n % 4 == 0,
            ;
        }
        if buf[4 * p + 3] != 0 {
            proof {
                assert((4 * p + 3) % 4 == 3) by (nonlinear_arith)
                    requires
                        p >= 0,
                ;
            }
            has_alpha = true;
        } else {
            proof {
                assert forall|k: int| 0 <= k < 4 * (p + 1) && k % 4 == 3 implies #[trigger] buf@[k]
                    == 0 by {
                    if k >= 4 * p {
                        assert(k == 4 * p + 3) by (nonlinear_arith)
                            requires
                                4 * p <= k < 4 * (p + 1),
                                k % 4 == 3,
                        ;
                        assert(buf@[k] == 0);
                    } else {
                        assert(buf@[k] == 0);
                    }
                }
            }
            p = p + 1;
        }
    }
    proof {
        if !has_alpha {
            assert(p == n / 4);
            assert forall|k: int| 0 <= k < n && k % 4 == 3 implies #[trigger] channeled[k] == 0 by {
                assert(k < 4 * (n / 4)) by (nonlinear_arith)
                    requires
                        0 <= k < n,
                        n % 4 == 0,
                ;
                assert(k < 4 * (p as int));
                assert(buf@[k] == 0);
                assert(channeled[k] == buf@[k]);
            }
            assert(all_alpha_zero(channeled));
        }
    }
    if !has_alpha {
        let mut p: usize = 0;
        while p < n / 4
            invariant
                p <= n / 4,
                n == buf@.len(),
                n % 4 == 0,
                channeled.len() == n,
                forall|k: int| 0 <= k < 4 * p ==> buf@[k] == force_opaque(channeled)[k],
                forall|k: int| 4 * p <= k < n ==> buf@[k] == channeled[k],
            decreases n / 4 - p,
        {
            proof {
                assert(4 * p + 3 < n) by (nonlinear_arith)
                    requires
                        p < n / 4,
                        n % 4 == 0,
                ;
            }
            buf[4 * p + 3] = 255;
            proof {
                assert forall|k: int| 0 <= k < 4 * (p + 1) implies buf@[k] == force_opaque(
                    channeled,
                )[k] by {
                    assert(force_opaque(channeled).len() == n);
                    if k >= 4 * p {
                        assert(k % 4 == (k - 4 * p) % 4) by (nonlinear_arith)
                            requires
                                p >= 0,
                                k >= 0,
                        ;
                        if k == 4 * p + 3 {
                            assert(buf@[k] == 255);
                        } else {
                            assert(buf@[k] == channeled[k]);
                        }
                    }
                }
            }
            p = p + 1;
        }
        proof {
            assert(4 * (n / 4) == n);
            assert(buf@ =~= force_opaque(channeled));
            assert(buf@ == normalized(pixels@, width as nat, height as nat, swap_channels,
                bottom_up));
        }
        Ok(buf)
    } else {
        proof {
            assert(buf@ == normalized(pixels@, width as nat, height as nat, swap_channels,
                bottom_up));
        }
        Ok(buf)
    }
}

} // verus!
