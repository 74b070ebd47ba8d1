//! The PackBits run-length codec used for PSD image-data planes.
//!
//! A compressed plane starts with a 16-bit compression mode.  Mode 0 is raw
//! bytes; mode 1 is PackBits: per row, a sequence of signed control bytes,
//! where `n` in `[0, 127]` copies the next `n + 1` literal bytes, `n == -128`
//! does nothing, and `n` in `[-127, -1]` repeats the next byte `1 - n` times.
//!
//! Two decoders are provided: [`append_img_data`] grows a vector (used for
//! planar K and mask channels) and [`copy_img_data`] writes into a slice with
//! a stride (used to interleave RGBA channels), silently dropping writes that
//! would fall past the end of the slice.

use vstd::prelude::*;
use crate::cursor::be_u16_at;

verus! {

/// Decode one PackBits row out of `data`, starting at `pos`, consuming
/// control bytes until the position reaches `end`.  A run is finished even
/// when it carries the position past `end`, so the final position may
/// overshoot it.  `None` means the row ran past the end of `data`.
pub open spec fn pb_row_decode(data: Seq<u8>, pos: int, end: int) -> Option<(Seq<u8>, int)>
    decreases end - pos,
{
    if pos >= end {
        Some((Seq::empty(), pos))
    } else if !(0 <= pos < data.len()) {
        None
    } else {
        let ctrl = data[pos];
        if ctrl <= 127 {
            let next = pos + 2 + ctrl;
            if next <= data.len() {
                let chunk = data.subrange(pos + 1, next);
                if next >= end {
                    Some((chunk, next))
                } else {
                    match pb_row_decode(data, next, end) {
                        Some((rest, p)) => Some((chunk + rest, p)),
                        None => None,
                    }
                }
            } else {
                None
            }
        } else if ctrl == 128 {
            if pos + 1 >= end {
                Some((Seq::empty(), pos + 1))
            } else {
                pb_row_decode(data, pos + 1, end)
            }
        } else {
            let cnt = 257 - ctrl;
            if pos + 2 <= data.len() {
                let chunk = Seq::new(cnt as nat, |i: int| data[pos + 1]);
                if pos + 2 >= end {
                    Some((chunk, pos + 2))
                } else {
                    match pb_row_decode(data, pos + 2, end) {
                        Some((rest, p)) => Some((chunk + rest, p)),
                        None => None,
                    }
                }
            } else {
                None
            }
        }
    }
}

/// Decode `lens.len()` PackBits rows in sequence, each row starting exactly
/// where the previous one stopped (overshoot carries into the next row).
/// Yields the concatenated output and the final position.
pub open spec fn pb_rows_append(data: Seq<u8>, pos: int, lens: Seq<u16>) -> Option<(Seq<u8>, int)>
    decreases lens.len(),
{
    if lens.len() == 0 {
        Some((Seq::empty(), pos))
    } else {
        match pb_row_decode(data, pos, pos + lens[0]) {
            Some((out, p)) => match pb_rows_append(data, p, lens.drop_first()) {
                Some((rest, q)) => Some((out + rest, q)),
                None => None,
            },
            None => None,
        }
    }
}

/// Decode `lens.len()` PackBits rows in sequence, forcing each row to start
/// at the previous row's declared end.  Yields the concatenated output and
/// the total number of encoded bytes the rows consumed (overshoot included).
pub open spec fn pb_rows_copy(data: Seq<u8>, pos: int, lens: Seq<u16>) -> Option<(Seq<u8>, int)>
    decreases lens.len(),
{
    if lens.len() == 0 {
        Some((Seq::empty(), 0))
    } else {
        match pb_row_decode(data, pos, pos + lens[0]) {
            Some((out, p)) => match pb_rows_copy(data, pos + lens[0], lens.drop_first()) {
                Some((rest, c)) => Some((out + rest, (p - pos) + c)),
                None => None,
            },
            None => None,
        }
    }
}

/// The `h` big-endian row lengths stored right after the compression mode.
pub open spec fn row_lens(data: Seq<u8>, h: int) -> Seq<u16> {
    Seq::new(h as nat, |i: int| be_u16_at(data, 2 + 2 * i))
}

/// The sum of a sequence of row lengths.
pub open spec fn lens_total(lens: Seq<u16>) -> int
    decreases lens.len(),
{
    if lens.len() == 0 {
        0
    } else {
        lens[0] + lens_total(lens.drop_first())
    }
}

/// What [`append_img_data`] appends and how far it advances: `None` exactly
/// when it fails.  `size` is the declared byte length of the whole compressed
/// plane (mode prefix included) and `h` its row count.
pub open spec fn spec_append_decode(data: Seq<u8>, size: int, h: int) -> Option<(Seq<u8>, int)> {
    if data.len() < 2 {
        None
    } else {
        let mode = be_u16_at(data, 0);
        if mode == 0 {
            if size <= data.len() {
                Some((data.subrange(2, size), size))
            } else {
                None
            }
        } else if mode == 1 {
            if 2 + 2 * h <= data.len() {
                pb_rows_append(data, 2 + 2 * h, row_lens(data, h))
            } else {
                None
            }
        } else {
            None
        }
    }
}

/// The plane of bytes [`copy_img_data`] writes out (before striding): `None`
/// exactly when it fails, which includes the case where the bytes the rows
/// consumed disagree with the declared plane length `size`.
pub open spec fn spec_copy_decode(data: Seq<u8>, size: int, h: int) -> Option<Seq<u8>> {
    if data.len() < 2 {
        None
    } else {
        let mode = be_u16_at(data, 0);
        if mode == 0 {
            if size <= data.len() {
                Some(data.subrange(2, size))
            } else {
                None
            }
        } else if mode == 1 {
            if 2 + 2 * h <= data.len() {
                match pb_rows_copy(data, 2 + 2 * h, row_lens(data, h)) {
                    Some((out, c)) => if 2 + 2 * h + c == size {
                        Some(out)
                    } else {
                        None
                    },
                    None => None,
                }
            } else {
                None
            }
        } else {
            None
        }
    }
}

/// Decompress a PackBits image-data plane, appending the decoded bytes onto
/// `output`.
///
/// `size` is the declared byte length of the compressed plane, including the
/// two-byte compression-mode prefix; `h` is the plane's row count.  On
/// success the returned value is how many bytes of `data` the plane covered,
/// which is where the next plane starts.
///
/// PSD stores its planar channels (the CMYK K plane and mask planes) this
/// way.
pub fn append_img_data(data: &[u8], output: &mut Vec<u8>, size: u64, h: u64) -> (r: Result<
    usize,
    String,
>)
    requires
        2 <= size,
    ensures
        r is Ok <==> spec_append_decode(data@, size as int, h as int) is Some,
        r matches Ok(n) ==> spec_append_decode(data@, size as int, h as int) matches Some((
            out,
            p,
        )) && final(output)@ == old(output)@ + out && n == p,
        r matches Ok(n) ==> n <= data@.len(),
        final(output)@.len() >= old(output)@.len(),
        final(output)@.take(old(output)@.len() as int) == old(output)@,
        r matches Err(e) ==> e@ == "Unexpected end of stream"@ || e@
            == "unsupported compression format"@,
        data@.len() >= 2 && be_u16_at(data@, 0) != 0 && be_u16_at(data@, 0) != 1 ==> {
            &&& r is Err
            &&& final(output)@ == old(output)@
            &&& r matches Err(e) && e@ == "unsupported compression format"@
        },
        r is Err && (data@.len() < 2 || be_u16_at(data@, 0) == 0 || be_u16_at(data@, 0) == 1)
            ==> (r matches Err(e) && e@ == "Unexpected end of stream"@),
{
    let dlen = data.len();
    if dlen < 2 {
        return Err("Unexpected end of stream".to_owned());
    }
    let mode: u16 = (data[0] as u16) * 0x100 + (data[1] as u16);
    if mode == 0 {
        if size > dlen as u64 {
            return Err("Unexpected end of stream".to_owned());
        }
        let szu = size as usize;
        output.extend_from_slice(&data[2..szu]);
        Ok(szu)
    } else if mode == 1 {
        if h > ((dlen - 2) / 2) as u64 {
            return Err("Unexpected end of stream".to_owned());
        }
        let hh = h as usize;
        let ghost lens = row_lens(data@, h as int);
        let ghost pos0: int = 2 + 2 * h as int;
        let ghost olen: int = old(output)@.len() as int;
        let mut lpos: usize = 2;
        let mut dpos: usize = 2 + 2 * hh;
        let mut row: usize = 0;
        proof {
            assert(lens.skip(0) =~= lens);
            assert(output@.skip(olen) =~= Seq::<u8>::empty());
            match pb_rows_append(data@, dpos as int, lens) {
                Some((o, p)) => {
                    assert(output@.skip(olen) + o =~= o);
                },
                None => {},
            }
        }
        while row < hh
            invariant
                dlen == data@.len(),
                2 <= dlen,
                be_u16_at(data@, 0) == 1,
                2 + 2 * hh <= dlen,
                hh == h,
                row <= hh,
                lpos == 2 + 2 * row,
                2 + 2 * hh <= dpos <= dlen,
                lens == row_lens(data@, h as int),
                pos0 == 2 + 2 * h as int,
                olen == old(output)@.len(),
                olen <= output@.len(),
                output@.take(olen) == old(output)@,
                match pb_rows_append(data@, dpos as int, lens.skip(row as int)) {
                    Some((o, p)) => pb_rows_append(data@, pos0, lens) == Some((
                        output@.skip(olen) + o,
                        p,
                    )),
                    None => pb_rows_append(data@, pos0, lens) is None,
                },
            decreases hh - row,
        {
            let len: u16 = (data[lpos] as u16) * 0x100 + (data[lpos + 1] as u16);
            proof {
                assert(len == lens[row as int]);
            }
            lpos = lpos + 2;
            if (len as usize) > dlen - dpos {
                proof {
                    lemma_row_decode_needs_data(data@, dpos as int, dpos + len);
                    assert(lens.skip(row as int)[0] == lens[row as int]);
                    assert(pb_rows_append(data@, dpos as int, lens.skip(row as int)) is None);
                }
                return Err("Unexpected end of stream".to_owned());
            }
            let row_end = dpos + len as usize;
            let ghost row_start: int = dpos as int;
            let ghost row_olen: int = output@.len() as int;
            let ghost row_output0: Seq<u8> = output@;
            while dpos < row_end
                invariant
                    dlen == data@.len(),
                    2 <= dlen,
                    be_u16_at(data@, 0) == 1,
                    row_end <= dlen,
                    dpos <= dlen,
                    0 <= row_start <= dlen,
                    hh == h,
                    row < hh,
                    lens == row_lens(data@, h as int),
                    pos0 == 2 + 2 * h as int,
                    row_end == row_start + lens[row as int],
                    olen <= row_olen == row_output0.len(),
                    row_output0.take(olen) == old(output)@,
                    olen == old(output)@.len(),
                    row_olen <= output@.len(),
                    output@.take(olen) == old(output)@,
                    output@.take(row_olen) == row_output0,
                    match pb_row_decode(data@, dpos as int, row_end as int) {
                        Some((o, p)) => pb_row_decode(data@, row_start, row_end as int) == Some((
                            output@.skip(row_olen) + o,
                            p,
                        )),
                        None => pb_row_decode(data@, row_start, row_end as int) is None,
                    },
                    match pb_rows_append(data@, row_start, lens.skip(row as int)) {
                        Some((o, p)) => pb_rows_append(data@, pos0, lens) == Some((
                            row_output0.skip(olen) + o,
                            p,
                        )),
                        None => pb_rows_append(data@, pos0, lens) is None,
                    },
                decreases (if dpos <= row_end { row_end - dpos } else { 0int }),
            {
                let ghost cpos: int = dpos as int;
                let ghost out_before: Seq<u8> = output@;
                let ctrl: u8 = data[dpos];
                dpos = dpos + 1;
                if ctrl <= 127 {
                    let cnt = ctrl as usize + 1;
                    if cnt > dlen - dpos {
                        proof {
                            assert(pb_row_decode(data@, cpos, row_end as int) is None);
                            assert(lens.skip(row as int)[0] == lens[row as int]);
                            assert(pb_rows_append(data@, row_start, lens.skip(row as int))
                                is None);
                        }
                        return Err("Unexpected end of stream".to_owned());
                    }
                    output.extend_from_slice(&data[dpos..dpos + cnt]);
                    dpos = dpos + cnt;
                } else if ctrl == 128 {
                } else {
                    if dpos >= dlen {
                        proof {
                            assert(pb_row_decode(data@, cpos, row_end as int) is None);
                            assert(lens.skip(row as int)[0] == lens[row as int]);
                            assert(pb_rows_append(data@, row_start, lens.skip(row as int))
                                is None);
                        }
                        return Err("Unexpected end of stream".to_owned());
                    }
                    let b: u8 = data[dpos];
                    dpos = dpos + 1;
                    let cnt: usize = 257 - ctrl as usize;
                    let ghost base: Seq<u8> = output@;
                    let mut k: usize = 0;
                    while k < cnt
                        invariant
                            k <= cnt,
                            output@ == base + Seq::new(k as nat, |i: int| b),
                        decreases cnt - k,
                    {
                        output.push(b);
                        k = k + 1;
                        proof {
                            assert(output@ =~= base + Seq::new(k as nat, |i: int| b));
                        }
                    }
                }
                proof {
                    assert(output@.take(row_olen) =~= row_output0);
                    assert(output@.skip(row_olen) =~= out_before.skip(row_olen)
                        + output@.skip(out_before.len() as int));
                    match pb_row_decode(data@, dpos as int, row_end as int) {
                        Some((o, p)) => {
                            assert(pb_row_decode(data@, cpos, row_end as int) == Some((
                                output@.skip(out_before.len() as int) + o,
                                p,
                            )));
                            assert(out_before.skip(row_olen) + (output@.skip(
                                out_before.len() as int,
                            ) + o) =~= output@.skip(row_olen) + o);
                        },
                        None => {
                            assert(pb_row_decode(data@, cpos, row_end as int) is None);
                        },
                    }
                }
            }
            proof {
                assert(pb_row_decode(data@, dpos as int, row_end as int) == Some((
                    Seq::<u8>::empty(),
                    dpos as int,
                )));
                assert(output@.skip(row_olen) + Seq::<u8>::empty() =~= output@.skip(row_olen));
                assert(pb_row_decode(data@, row_start, row_end as int) == Some((
                    output@.skip(row_olen),
                    dpos as int,
                )));
                assert(lens.skip(row as int).drop_first() =~= lens.skip(row + 1));
                assert(lens.skip(row as int)[0] == lens[row as int]);
                match pb_rows_append(data@, dpos as int, lens.skip(row + 1)) {
                    Some((o, p)) => {
                        assert(pb_rows_append(data@, row_start, lens.skip(row as int)) == Some((
                            output@.skip(row_olen) + o,
                            p,
                        )));
                        assert(row_output0.skip(olen) + (output@.skip(row_olen) + o) =~= output@.skip(
                            olen,
                        ) + o);
                    },
                    None => {
                        assert(pb_rows_append(data@, row_start, lens.skip(row as int)) is None);
                    },
                }
            }
            row = row + 1;
        }
        proof {
            assert(lens.skip(row as int) =~= Seq::<u16>::empty());
            assert(pb_rows_append(data@, dpos as int, lens.skip(row as int)) == Some((
                Seq::<u8>::empty(),
                dpos as int,
            )));
            assert(output@.skip(olen) + Seq::<u8>::empty() =~= output@.skip(olen));
            assert(old(output)@ + output@.skip(olen) =~= output@);
        }
        Ok(dpos)
    } else {
        Err("unsupported compression format".to_owned())
    }
}

/// Every slot of `cur` holds the strided image of `done` over `base`: slot
/// `k * stride` holds `done[k]` for every `k` that lands inside the slice,
/// every other slot keeps its `base` value.  Writes that would land past the
/// end of the slice are dropped.
pub open spec fn strided_fill(cur: Seq<u8>, base: Seq<u8>, done: Seq<u8>, stride: int) -> bool {
    &&& cur.len() == base.len()
    &&& forall|j: int|
        0 <= j < cur.len() ==> cur[j] == (if j % stride == 0 && j / stride < done.len() {
            done[j / stride]
        } else {
            base[j]
        })
}

proof fn lemma_strided_put(
    cur: Seq<u8>,
    next: Seq<u8>,
    base: Seq<u8>,
    done: Seq<u8>,
    c: u8,
    stride: int,
)
    requires
        stride >= 1,
        strided_fill(cur, base, done, stride),
        next == (if done.len() * stride < cur.len() {
            cur.update(done.len() * stride, c)
        } else {
            cur
        }),
    ensures
        strided_fill(next, base, done.push(c), stride),
{
    let k = done.len() as int;
    vstd::arithmetic::div_mod::lemma_mod_multiples_basic(k, stride);
    vstd::arithmetic::div_mod::lemma_div_by_multiple(k, stride);
    assert(k * stride == stride * k) by (nonlinear_arith);
    assert forall|j: int| 0 <= j < next.len() implies next[j] == (if j % stride == 0 && j
        / stride < done.push(c).len() {
        done.push(c)[j / stride]
    } else {
        base[j]
    }) by {
        vstd::arithmetic::div_mod::lemma_fundamental_div_mod(j, stride);
        if j % stride == 0 && j / stride == k {
            assert(j == stride * k);
        }
    }
}

/// The write position after `k` strided writes: `k * stride`, saturated at
/// `u64::MAX` (which is always past the end of any slice, so saturation only
/// ever drops writes that had to be dropped anyway).
pub open spec fn wpos_ok(w: u64, k: int, stride: int) -> bool {
    if k * stride <= u64::MAX {
        w == k * stride
    } else {
        w == u64::MAX
    }
}

proof fn lemma_wpos_step(w: u64, w2: u64, k: int, stride: int)
    requires
        stride >= 1,
        k >= 0,
        wpos_ok(w, k, stride),
        w2 == (if w + stride <= u64::MAX {
            w + stride
        } else {
            u64::MAX as int
        }),
    ensures
        wpos_ok(w2, k + 1, stride),
{
    assert((k + 1) * stride == k * stride + stride) by (nonlinear_arith);
}

proof fn lemma_wpos_in(w: u64, k: int, stride: int, olen: int)
    requires
        stride >= 1,
        k >= 0,
        wpos_ok(w, k, stride),
        olen <= u64::MAX,
    ensures
        (w < olen) <==> (k * stride < olen),
{
}

/// Write one decoded byte at write position `w`, dropping it when it falls
/// past the end of the slice, and step the write position by `stride`
/// (saturating, so a position once past the end stays past the end).
fn strided_put(output: &mut [u8], w: u64, stride: usize, c: u8) -> (w2: u64)
    requires
        1 <= stride,
    ensures
        final(output)@.len() == old(output)@.len(),
        w < old(output)@.len() ==> final(output)@ == old(output)@.update(w as int, c),
        w >= old(output)@.len() ==> final(output)@ == old(output)@,
        w2 == (if w + stride <= u64::MAX {
            w + stride
        } else {
            u64::MAX as int
        }),
{
    let w2 = w.saturating_add(stride as u64);
    if w < output.len() as u64 {
        output[w as usize] = c;
    }
    w2
}

/// Write the literal bytes `data[start .. start + cnt]` through the strided
/// writer, extending the ghost record of what has been written so far.
fn copy_literal_run(
    data: &[u8],
    output: &mut [u8],
    stride: usize,
    start: usize,
    cnt: usize,
    w: u64,
    done: Ghost<Seq<u8>>,
    base: Ghost<Seq<u8>>,
) -> (ret: (u64, Ghost<Seq<u8>>))
    requires
        1 <= stride,
        start + cnt <= data@.len(),
        base@.len() == old(output)@.len(),
        base@.len() <= u64::MAX,
        wpos_ok(w, done@.len() as int, stride as int),
        strided_fill(old(output)@, base@, done@, stride as int),
    ensures
        final(output)@.len() == old(output)@.len(),
        ret.1@ == done@ + data@.subrange(start as int, start + cnt),
        wpos_ok(ret.0, ret.1@.len() as int, stride as int),
        strided_fill(final(output)@, base@, ret.1@, stride as int),
{
    let dl = data.len();
    let mut t: usize = 0;
    let mut w = w;
    let ghost mut d: Seq<u8> = done@;
    proof {
        assert(d =~= done@ + data@.subrange(start as int, start as int));
    }
    while t < cnt
        invariant
            1 <= stride,
            t <= cnt,
            dl == data@.len(),
            start + cnt <= data@.len(),
            base@.len() == output@.len() <= u64::MAX,
            d == done@ + data@.subrange(start as int, start + t),
            wpos_ok(w, d.len() as int, stride as int),
            strided_fill(output@, base@, d, stride as int),
        decreases cnt - t,
    {
        let c = data[start + t];
        let ghost cur = output@;
        let ghost w0 = w;
        proof {
            lemma_wpos_in(w, d.len() as int, stride as int, output@.len() as int);
        }
        w = strided_put(output, w, stride, c);
        proof {
            lemma_strided_put(cur, output@, base@, d, c, stride as int);
            lemma_wpos_step(w0, w, d.len() as int, stride as int);
            d = d.push(c);
            assert(d =~= done@ + data@.subrange(start as int, start + (t + 1)));
        }
        t = t + 1;
    }
    (w, Ghost(d))
}

/// Write `cnt` copies of the byte `c` through the strided writer, extending
/// the ghost record of what has been written so far.
fn copy_repeat_run(
    output: &mut [u8],
    stride: usize,
    c: u8,
    cnt: usize,
    w: u64,
    done: Ghost<Seq<u8>>,
    base: Ghost<Seq<u8>>,
) -> (ret: (u64, Ghost<Seq<u8>>))
    requires
        1 <= stride,
        base@.len() == old(output)@.len(),
        base@.len() <= u64::MAX,
        wpos_ok(w, done@.len() as int, stride as int),
        strided_fill(old(output)@, base@, done@, stride as int),
    ensures
        final(output)@.len() == old(output)@.len(),
        ret.1@ == done@ + Seq::new(cnt as nat, |i: int| c),
        wpos_ok(ret.0, ret.1@.len() as int, stride as int),
        strided_fill(final(output)@, base@, ret.1@, stride as int),
{
    let mut t: usize = 0;
    let mut w = w;
    let ghost mut d: Seq<u8> = done@;
    proof {
        assert(d =~= done@ + Seq::new(0nat, |i: int| c));
    }
    while t < cnt
        invariant
            1 <= stride,
            t <= cnt,
            base@.len() == output@.len() <= u64::MAX,
            d == done@ + Seq::new(t as nat, |i: int| c),
            wpos_ok(w, d.len() as int, stride as int),
            strided_fill(output@, base@, d, stride as int),
        decreases cnt - t,
    {
        let ghost cur = output@;
        let ghost w0 = w;
        proof {
            lemma_wpos_in(w, d.len() as int, stride as int, output@.len() as int);
        }
        w = strided_put(output, w, stride, c);
        proof {
            lemma_strided_put(cur, output@, base@, d, c, stride as int);
            lemma_wpos_step(w0, w, d.len() as int, stride as int);
            d = d.push(c);
            assert(d =~= done@ + Seq::new((t + 1) as nat, |i: int| c));
        }
        t = t + 1;
    }
    (w, Ghost(d))
}

/// The total of a sequence of row lengths is never negative.
pub proof fn lemma_lens_total_nonneg(lens: Seq<u16>)
    ensures
        lens_total(lens) >= 0,
    decreases lens.len(),
{
    if lens.len() > 0 {
        lemma_lens_total_nonneg(lens.drop_first());
    }
}

/// Decompress a PackBits image-data plane into `output` in place, writing
/// each decoded byte `stride` slots after the one before.  Decoded bytes
/// that would land past the end of `output` are dropped silently, so a
/// plane whose declared geometry disagrees with its data cannot write out
/// of bounds; decoding progress continues regardless.
///
/// `size` is the declared byte length of the compressed plane, mode prefix
/// included, and the strided decoder also verifies it: when the encoded rows
/// cover a different number of bytes than `size` declares, the plane is
/// rejected as desynchronized.  On success the returned value is `size`.
///
/// PSD stores RGBA interleaved, so the layer walker decodes each of up to
/// four channels with `stride == 4` into a pixel grid, one offset each.
/// The stride is the distance between consecutive written slots, so it must
/// be at least one; a zero stride would pile every byte onto one slot.
pub fn copy_img_data(data: &[u8], output: &mut [u8], stride: usize, size: u64, h: u64) -> (r:
    Result<usize, String>)
    requires
        2 <= size <= usize::MAX,
        1 <= stride,
    ensures
        final(output)@.len() == old(output)@.len(),
        r is Ok <==> spec_copy_decode(data@, size as int, h as int) is Some,
        r matches Ok(n) ==> n == size,
        r is Ok ==> strided_fill(
            final(output)@,
            old(output)@,
            spec_copy_decode(data@, size as int, h as int)->Some_0,
            stride as int,
        ),
        forall|j: int|
            0 <= j < old(output)@.len() && j % (stride as int) != 0 ==> final(output)@[j]
                == old(output)@[j],
        r matches Err(e) ==> e@ == "Unexpected end of stream"@ || e@
            == "unsupported compression format"@ || e@
            == "Desynchronized while reading image data"@,
        data@.len() >= 2 && be_u16_at(data@, 0) != 0 && be_u16_at(data@, 0) != 1 ==> {
            &&& r is Err
            &&& final(output)@ == old(output)@
            &&& r matches Err(e) && e@ == "unsupported compression format"@
        },
        r is Err && data@.len() >= 2 && be_u16_at(data@, 0) == 0 ==> {
            &&& final(output)@ == old(output)@
            &&& r matches Err(e) && e@ == "Unexpected end of stream"@
        },
{
    let dlen = data.len();
    let olen = output.len();
    let ghost base: Seq<u8> = output@;
    if dlen < 2 {
        return Err("Unexpected end of stream".to_owned());
    }
    let mode: u16 = (data[0] as u16) * 0x100 + (data[1] as u16);
    if mode == 0 {
        if size > dlen as u64 {
            return Err("Unexpected end of stream".to_owned());
        }
        let szu = size as usize;
        let ret = copy_literal_run(data, output, stride, 2, szu - 2, 0, Ghost(Seq::empty()), Ghost(base));
        proof {
            assert(ret.1@ =~= data@.subrange(2, size as int));
        }
        Ok(szu)
    } else if mode == 1 {
        if h > ((dlen - 2) / 2) as u64 {
            return Err("Unexpected end of stream".to_owned());
        }
        let hh = h as usize;
        let ghost lens = row_lens(data@, h as int);
        let ghost pos0: int = 2 + 2 * h as int;
        let mut lpos: usize = 2;
        let mut dpos: usize = 2 + 2 * hh;
        let mut row: usize = 0;
        let mut j: u128 = 2;
        let mut w: u64 = 0;
        let ghost mut done: Seq<u8> = Seq::empty();
        let ghost mut consumed: int = 0;
        proof {
            assert(lens.skip(0) =~= lens);
            match pb_rows_copy(data@, dpos as int, lens) {
                Some((o, c)) => {
                    assert(done + o =~= o);
                },
                None => {},
            }
        }
        while row < hh
            invariant
                dlen == data@.len(),
                2 <= dlen,
                be_u16_at(data@, 0) == 1,
                1 <= stride,
                2 <= size <= usize::MAX,
                2 + 2 * hh <= dlen,
                hh == h,
                row <= hh,
                lpos == 2 + 2 * row,
                2 + 2 * hh <= dpos <= dlen,
                lens == row_lens(data@, h as int),
                pos0 == 2 + 2 * h as int,
                olen == output@.len() == old(output)@.len(),
                base == old(output)@,
                j == 2 + 2 * row + consumed,
                j <= size,
                consumed >= 0,
                wpos_ok(w, done.len() as int, stride as int),
                strided_fill(output@, base, done, stride as int),
                match pb_rows_copy(data@, dpos as int, lens.skip(row as int)) {
                    Some((o, c)) => pb_rows_copy(data@, pos0, lens) == Some((
                        done + o,
                        consumed + c,
                    )),
                    None => pb_rows_copy(data@, pos0, lens) is None,
                },
            decreases hh - row,
        {
            let len: u16 = (data[lpos] as u16) * 0x100 + (data[lpos + 1] as u16);
            proof {
                assert(len == lens[row as int]);
                assert(lens.skip(row as int)[0] == lens[row as int]);
            }
            lpos = lpos + 2;
            j = j + 2;
            if (len as usize) > dlen - dpos {
                proof {
                    lemma_row_decode_needs_data(data@, dpos as int, dpos + len);
                    assert(pb_rows_copy(data@, dpos as int, lens.skip(row as int)) is None);
                }
                return Err("Unexpected end of stream".to_owned());
            }
            let row_end = dpos + len as usize;
            let ghost row_start: int = dpos as int;
            let ghost done0: Seq<u8> = done;
            let ghost consumed0: int = consumed;
            proof {
                assert(done.take(done0.len() as int) =~= done0);
                match pb_row_decode(data@, dpos as int, row_end as int) {
                    Some((o, p)) => {
                        assert(done.skip(done0.len() as int) + o =~= o);
                    },
                    None => {},
                }
            }
            while dpos < row_end
                invariant
                    dlen == data@.len(),
                    2 <= dlen,
                    be_u16_at(data@, 0) == 1,
                    1 <= stride,
                    2 <= size <= usize::MAX,
                    hh == h,
                    row < hh,
                    lens == row_lens(data@, h as int),
                    pos0 == 2 + 2 * h as int,
                    lpos == 2 + 2 * row + 2,
                    row_end <= dlen,
                    dpos <= dlen,
                    0 <= row_start <= row_end,
                    row_start <= dpos,
                    row_end == row_start + lens[row as int],
                    olen == output@.len() == old(output)@.len(),
                    base == old(output)@,
                    j == 2 + 2 * (row + 1) + consumed0 + (dpos - row_start),
                    j <= size + 2 + (dpos - row_start),
                    consumed0 >= 0,
                    done0.len() <= done.len(),
                    done.take(done0.len() as int) == done0,
                    wpos_ok(w, done.len() as int, stride as int),
                    strided_fill(output@, base, done, stride as int),
                    match pb_row_decode(data@, dpos as int, row_end as int) {
                        Some((o, p)) => pb_row_decode(data@, row_start, row_end as int) == Some((
                            done.skip(done0.len() as int) + o,
                            p,
                        )),
                        None => pb_row_decode(data@, row_start, row_end as int) is None,
                    },
                    match pb_rows_copy(data@, row_start, lens.skip(row as int)) {
                        Some((o, c)) => pb_rows_copy(data@, pos0, lens) == Some((
                            done0 + o,
                            consumed0 + c,
                        )),
                        None => pb_rows_copy(data@, pos0, lens) is None,
                    },
                decreases (if dpos <= row_end { row_end - dpos } else { 0int }),
            {
                let ghost cpos: int = dpos as int;
                let ghost done_c: Seq<u8> = done;
                let ctrl: u8 = data[dpos];
                dpos = dpos + 1;
                j = j + 1;
                if ctrl <= 127 {
                    let cnt = ctrl as usize + 1;
                    if cnt > dlen - dpos {
                        proof {
                            assert(pb_row_decode(data@, cpos, row_end as int) is None);
                            assert(pb_rows_copy(data@, row_start, lens.skip(row as int)) is None);
                        }
                        return Err("Unexpected end of stream".to_owned());
                    }
                    let ret = copy_literal_run(data, output, stride, dpos, cnt, w, Ghost(done), Ghost(base));
                    w = ret.0;
                    proof {
                        done = ret.1@;
                    }
                    dpos = dpos + cnt;
                    j = j + cnt as u128;
                    proof {
                        let chunk = data@.subrange(cpos + 1, dpos as int);
                        assert(done.skip(done_c.len() as int) =~= chunk);
                        assert(done.take(done0.len() as int) =~= done0);
                        match pb_row_decode(data@, dpos as int, row_end as int) {
                            Some((o, p)) => {
                                if dpos >= row_end {
                                    assert(o =~= Seq::<u8>::empty());
                                    assert(chunk + o =~= chunk);
                                    assert(pb_row_decode(data@, cpos, row_end as int) == Some((
                                        chunk + o,
                                        p,
                                    )));
                                } else {
                                    assert(pb_row_decode(data@, cpos, row_end as int) == Some((
                                        chunk + o,
                                        p,
                                    )));
                                }
                                assert(done_c.skip(done0.len() as int) + (chunk + o) =~= done.skip(
                                    done0.len() as int,
                                ) + o);
                            },
                            None => {
                                assert(pb_row_decode(data@, cpos, row_end as int) is None);
                            },
                        }
                    }
                } else if ctrl == 128 {
                    proof {
                        match pb_row_decode(data@, dpos as int, row_end as int) {
                            Some((o, p)) => {
                                if dpos >= row_end {
                                    assert(o =~= Seq::<u8>::empty());
                                    assert(pb_row_decode(data@, cpos, row_end as int) == Some((
                                        o,
                                        p,
                                    )));
                                } else {
                                    assert(pb_row_decode(data@, cpos, row_end as int) == Some((
                                        o,
                                        p,
                                    )));
                                }
                            },
                            None => {
                                assert(pb_row_decode(data@, cpos, row_end as int) is None);
                            },
                        }
                    }
                } else {
                    if dpos >= dlen {
                        proof {
                            assert(pb_row_decode(data@, cpos, row_end as int) is None);
                            assert(pb_rows_copy(data@, row_start, lens.skip(row as int)) is None);
                        }
                        return Err("Unexpected end of stream".to_owned());
                    }
                    let b: u8 = data[dpos];
                    dpos = dpos + 1;
                    j = j + 1;
                    let cnt2: usize = 257 - ctrl as usize;
                    let ret = copy_repeat_run(output, stride, b, cnt2, w, Ghost(done), Ghost(base));
                    w = ret.0;
                    proof {
                        done = ret.1@;
                    }
                    proof {
                        let chunk = Seq::new((257 - ctrl) as nat, |i: int| data@[cpos + 1]);
                        assert(done.skip(done_c.len() as int) =~= chunk);
                        assert(done.take(done0.len() as int) =~= done0);
                        match pb_row_decode(data@, dpos as int, row_end as int) {
                            Some((o, p)) => {
                                if dpos >= row_end {
                                    assert(o =~= Seq::<u8>::empty());
                                    assert(chunk + o =~= chunk);
                                    assert(pb_row_decode(data@, cpos, row_end as int) == Some((
                                        chunk + o,
                                        p,
                                    )));
                                } else {
                                    assert(pb_row_decode(data@, cpos, row_end as int) == Some((
                                        chunk + o,
                                        p,
                                    )));
                                }
                                assert(done_c.skip(done0.len() as int) + (chunk + o) =~= done.skip(
                                    done0.len() as int,
                                ) + o);
                            },
                            None => {
                                assert(pb_row_decode(data@, cpos, row_end as int) is None);
                            },
                        }
                    }
                }
            }
            proof {
                assert(pb_row_decode(data@, dpos as int, row_end as int) == Some((
                    Seq::<u8>::empty(),
                    dpos as int,
                )));
                assert(done.skip(done0.len() as int) + Seq::<u8>::empty() =~= done.skip(
                    done0.len() as int,
                ));
                assert(pb_row_decode(data@, row_start, row_end as int) == Some((
                    done.skip(done0.len() as int),
                    dpos as int,
                )));
                assert(lens.skip(row as int).drop_first() =~= lens.skip(row + 1));
                assert(lens.skip(row as int)[0] == lens[row as int]);
                match pb_rows_copy(data@, row_end as int, lens.skip(row + 1)) {
                    Some((o, c)) => {
                        assert(pb_rows_copy(data@, row_start, lens.skip(row as int)) == Some((
                            done.skip(done0.len() as int) + o,
                            (dpos - row_start) + c,
                        )));
                        assert(done0 + (done.skip(done0.len() as int) + o) =~= done + o);
                    },
                    None => {
                        assert(pb_rows_copy(data@, row_start, lens.skip(row as int)) is None);
                    },
                }
                consumed = consumed0 + (dpos - row_start);
            }
            dpos = row_end;
            row = row + 1;
            if j > size as u128 {
                proof {
                    match pb_rows_copy(data@, dpos as int, lens.skip(row as int)) {
                        Some((o, c)) => {
                            lemma_rows_copy_consumed(data@, dpos as int, lens.skip(row as int));
                            lemma_lens_total_nonneg(lens.skip(row as int));
                            assert(2 + 2 * h + (consumed + c) > size);
                        },
                        None => {},
                    }
                }
                return Err("Desynchronized while reading image data".to_owned());
            }
        }
        proof {
            assert(lens.skip(row as int) =~= Seq::<u16>::empty());
            assert(pb_rows_copy(data@, dpos as int, lens.skip(row as int)) == Some((
                Seq::<u8>::empty(),
                0int,
            )));
            assert(done + Seq::<u8>::empty() =~= done);
        }
        if j != size as u128 {
            return Err("Desynchronized while reading image data".to_owned());
        }
        Ok(size as usize)
    } else {
        Err("unsupported compression format".to_owned())
    }
}

/// The bytes of `data` from `pos` up to `end` are a PackBits encoding of
/// exactly `plain`: every run lies inside the region, the region is fully
/// used, and the runs expand to `plain`.
pub open spec fn pb_encodes(data: Seq<u8>, pos: int, end: int, plain: Seq<u8>) -> bool
    decreases end - pos,
{
    if pos >= end {
        pos == end && plain.len() == 0
    } else if !(0 <= pos < data.len()) {
        false
    } else {
        let ctrl = data[pos];
        if ctrl <= 127 {
            let next = pos + 2 + ctrl;
            &&& next <= end
            &&& next <= data.len()
            &&& plain.len() >= ctrl + 1
            &&& plain.take(ctrl + 1) == data.subrange(pos + 1, next)
            &&& pb_encodes(data, next, end, plain.skip(ctrl + 1))
        } else if ctrl == 128 {
            pb_encodes(data, pos + 1, end, plain)
        } else {
            let cnt = 257 - ctrl;
            &&& pos + 2 <= end
            &&& pos + 2 <= data.len()
            &&& plain.len() >= cnt
            &&& plain.take(cnt) == Seq::new(cnt as nat, |i: int| data[pos + 1])
            &&& pb_encodes(data, pos + 2, end, plain.skip(cnt))
        }
    }
}

/// A decoded row never stops short of its region's end, and never runs past
/// the end of the data.
pub proof fn lemma_row_decode_bounds(data: Seq<u8>, pos: int, end: int)
    requires
        0 <= pos <= data.len(),
    ensures
        pb_row_decode(data, pos, end) matches Some((out, p)) ==> {
            &&& pos <= p <= data.len()
            &&& (pos < end ==> p >= end)
            &&& (pos >= end ==> p == pos)
        },
    decreases end - pos,
{
    if pos >= end {
    } else if !(0 <= pos < data.len()) {
    } else {
        let ctrl = data[pos];
        if ctrl <= 127 {
            let next = pos + 2 + ctrl;
            if next <= data.len() && next < end {
                lemma_row_decode_bounds(data, next, end);
            }
        } else if ctrl == 128 {
            if pos + 1 < end {
                lemma_row_decode_bounds(data, pos + 1, end);
            }
        } else {
            if pos + 2 <= data.len() && pos + 2 < end {
                lemma_row_decode_bounds(data, pos + 2, end);
            }
        }
    }
}

/// Whatever consumes more bytes than `data` holds cannot decode: a row whose
/// region sticks out past the end of the data always fails.
pub proof fn lemma_row_decode_needs_data(data: Seq<u8>, pos: int, end: int)
    requires
        0 <= pos <= data.len(),
        end > data.len(),
    ensures
        pb_row_decode(data, pos, end) is None,
    decreases end - pos,
{
    if pos >= end {
    } else if pos == data.len() {
    } else {
        let ctrl = data[pos];
        if ctrl <= 127 {
            let next = pos + 2 + ctrl;
            if next <= data.len() {
                lemma_row_decode_needs_data(data, next, end);
            }
        } else if ctrl == 128 {
            lemma_row_decode_needs_data(data, pos + 1, end);
        } else {
            if pos + 2 <= data.len() {
                lemma_row_decode_needs_data(data, pos + 2, end);
            }
        }
    }
}

/// PackBits round trip, one row: any exact encoding of `plain` decodes back
/// to `plain`, and the decoder stops exactly at the end of the encoding.
pub proof fn lemma_packbits_round_trip(data: Seq<u8>, pos: int, end: int, plain: Seq<u8>)
    requires
        end <= data.len(),
        pb_encodes(data, pos, end, plain),
    ensures
        pb_row_decode(data, pos, end) == Some((plain, end)),
    decreases end - pos,
{
    if pos >= end {
        assert(plain =~= Seq::<u8>::empty());
    } else {
        let ctrl = data[pos];
        if ctrl <= 127 {
            let next = pos + 2 + ctrl;
            let cnt = ctrl + 1;
            lemma_packbits_round_trip(data, next, end, plain.skip(cnt));
            if next >= end {
                assert(plain.skip(cnt).len() == 0);
                assert(plain =~= plain.take(cnt));
            } else {
                assert(plain =~= plain.take(cnt) + plain.skip(cnt));
            }
        } else if ctrl == 128 {
            lemma_packbits_round_trip(data, pos + 1, end, plain);
            if pos + 1 >= end {
                assert(plain =~= Seq::<u8>::empty());
            }
        } else {
            let cnt = 257 - ctrl;
            lemma_packbits_round_trip(data, pos + 2, end, plain.skip(cnt));
            if pos + 2 >= end {
                assert(plain.skip(cnt).len() == 0);
                assert(plain =~= plain.take(cnt));
            } else {
                assert(plain =~= plain.take(cnt) + plain.skip(cnt));
            }
        }
    }
}

/// The bytes of `data` hold, row by row from `pos`, exact PackBits
/// encodings of the given plain rows, each row's region as long as the
/// matching entry of `lens` declares.
pub open spec fn pb_rows_encode(data: Seq<u8>, pos: int, lens: Seq<u16>, plains: Seq<Seq<u8>>) -> bool
    decreases lens.len(),
{
    if lens.len() != plains.len() {
        false
    } else if lens.len() == 0 {
        true
    } else {
        &&& pb_encodes(data, pos, pos + lens[0], plains[0])
        &&& pb_rows_encode(data, pos + lens[0], lens.drop_first(), plains.drop_first())
    }
}

/// The rows joined back together.
pub open spec fn rows_concat(plains: Seq<Seq<u8>>) -> Seq<u8>
    decreases plains.len(),
{
    if plains.len() == 0 {
        Seq::empty()
    } else {
        plains[0] + rows_concat(plains.drop_first())
    }
}

/// PackBits round trip, many rows: when a region holds exact encodings of a
/// sequence of plain rows, the append-mode decode of those rows yields
/// exactly their concatenation and stops exactly at the region's end.
pub proof fn lemma_rows_append_round_trip(
    data: Seq<u8>,
    pos: int,
    lens: Seq<u16>,
    plains: Seq<Seq<u8>>,
)
    requires
        0 <= pos,
        pos + lens_total(lens) <= data.len(),
        pb_rows_encode(data, pos, lens, plains),
    ensures
        pb_rows_append(data, pos, lens) == Some((rows_concat(plains), pos + lens_total(lens))),
    decreases lens.len(),
{
    if lens.len() == 0 {
    } else {
        lemma_lens_total_nonneg(lens.drop_first());
        lemma_packbits_round_trip(data, pos, pos + lens[0], plains[0]);
        lemma_rows_append_round_trip(data, pos + lens[0], lens.drop_first(), plains.drop_first());
    }
}

/// PackBits round trip at the decoder's own result function: a mode-1 plane
/// whose rows exactly encode the given plain rows decodes, in append mode,
/// to exactly their concatenation.
pub proof fn lemma_append_decode_round_trip(data: Seq<u8>, plains: Seq<Seq<u8>>, h: int)
    requires
        0 <= h,
        2 + 2 * h + lens_total(row_lens(data, h)) <= data.len(),
        be_u16_at(data, 0) == 1,
        pb_rows_encode(data, 2 + 2 * h, row_lens(data, h), plains),
    ensures
        spec_append_decode(data, 2 + 2 * h + lens_total(row_lens(data, h)), h) == Some((
            rows_concat(plains),
            2 + 2 * h + lens_total(row_lens(data, h)),
        )),
{
    lemma_lens_total_nonneg(row_lens(data, h));
    lemma_rows_append_round_trip(data, 2 + 2 * h, row_lens(data, h), plains);
}

/// The rows of a clamped (strided-mode) decode never consume fewer bytes
/// than their declared lengths in total.
pub proof fn lemma_rows_copy_consumed(data: Seq<u8>, pos: int, lens: Seq<u16>)
    requires
        0 <= pos <= data.len(),
    ensures
        pb_rows_copy(data, pos, lens) matches Some((out, c)) ==> c >= lens_total(lens),
    decreases lens.len(),
{
    if lens.len() == 0 {
    } else {
        let end = pos + lens[0];
        lemma_row_decode_bounds(data, pos, end);
        match pb_row_decode(data, pos, end) {
            Some((out, p)) => {
                if end <= data.len() {
                    lemma_rows_copy_consumed(data, end, lens.drop_first());
                } else {
                    lemma_row_decode_needs_data(data, pos, end);
                }
            },
            None => {},
        }
    }
}

/// Strided decode preserves content: when the clamped rows of a strided-mode
/// decode consume exactly their declared lengths, the append-mode decode of
/// the same rows yields exactly the same bytes.
pub proof fn lemma_rows_copy_matches_append(data: Seq<u8>, pos: int, lens: Seq<u16>)
    requires
        0 <= pos <= data.len(),
        pb_rows_copy(data, pos, lens) matches Some((out, c)) && c == lens_total(lens),
    ensures
        pb_rows_append(data, pos, lens) == Some((
            pb_rows_copy(data, pos, lens)->Some_0.0,
            pos + lens_total(lens),
        )),
    decreases lens.len(),
{
    if lens.len() == 0 {
    } else {
        let end = pos + lens[0];
        lemma_row_decode_bounds(data, pos, end);
        let (row_out, p) = pb_row_decode(data, pos, end)->Some_0;
        if end > data.len() {
            lemma_row_decode_needs_data(data, pos, end);
        }
        let (rest_out, rest_c) = pb_rows_copy(data, end, lens.drop_first())->Some_0;
        lemma_rows_copy_consumed(data, end, lens.drop_first());
        assert(p - pos >= lens[0]);
        assert(p == end);
        lemma_rows_copy_matches_append(data, end, lens.drop_first());
    }
}

/// Strided decode preserves content, at the level of the two decoders' own
/// result functions: whenever the strided decoder succeeds on a plane whose
/// declared size agrees with the sum of its row lengths, the append decoder
/// succeeds on the same plane and produces exactly the same bytes.
pub proof fn lemma_copy_decode_matches_append(data: Seq<u8>, size: int, h: int)
    requires
        0 <= h,
        spec_copy_decode(data, size, h) is Some,
        be_u16_at(data, 0) == 1 ==> size == 2 + 2 * h + lens_total(row_lens(data, h)),
    ensures
        spec_append_decode(data, size, h) == Some((spec_copy_decode(data, size, h)->Some_0, size)),
{
    let mode = be_u16_at(data, 0);
    if mode == 0 {
    } else if mode == 1 {
        let pos = 2 + 2 * h;
        let lens = row_lens(data, h);
        let (out, c) = pb_rows_copy(data, pos, lens)->Some_0;
        lemma_rows_copy_matches_append(data, pos, lens);
    }
}

} // verus!
