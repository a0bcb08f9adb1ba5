//! What holds of embedding and extraction together, over the carrier as a
//! sequence of sample bytes.

use vstd::prelude::*;
use crate::bitqueue::bits_of;
use crate::bitqueue::byte_bit;
use crate::bitqueue::lemma_bytes_of_bits_of;
use crate::bitqueue::lemma_word_of_u32_bits;
use crate::bitqueue::u32_bit;
use crate::bitqueue::u32_bits;
use crate::decode::collected;
use crate::decode::decoded;
use crate::encode::encode_plan;
use crate::encode::encode_result;
use crate::encode::encoded;
use crate::encode::payload_reach;
use crate::encode::payload_steps;
use crate::encode::jpeg::coefficient_check;
use crate::encode::jpeg::coefficients_encoded;
use crate::encode::png::carrier_check;
use crate::encode::png::opened;
use crate::error::Error;
use crate::options::EmbedConfig;
use crate::plan::capacity_bits;
use crate::plan::chunk_count;
use crate::plan::chunks_for;
use crate::plan::header_free;
use crate::plan::lemma_capacity_positive;
use crate::plan::lemma_stride_fits;
use crate::plan::read_plan;
use crate::plan::stride_for;
use crate::raster::RasterView;
use crate::sample::lemma_put_field_bits;
use crate::sample::lemma_put_field_outside;
use crate::sample::outside;
use crate::sample::put_field;
use crate::stepper::key_steps;
use crate::utils::jpeg::Component;
use crate::utils::jpeg::lemma_low_byte;
use crate::utils::jpeg::lemma_one_bit_steady;
use crate::utils::jpeg::lemma_scattered;
use crate::utils::jpeg::lemma_steady;
use crate::utils::jpeg::lemma_visible;
use crate::utils::jpeg::lemma_visible_alike;
use crate::utils::jpeg::positions;
use crate::utils::jpeg::selected;
use crate::utils::jpeg::skips;
use crate::utils::jpeg::steady;
use crate::utils::jpeg::surface;
use crate::utils::jpeg::with_low_byte;

use crate::walk::gathered;
use crate::walk::header_bits;
use crate::walk::header_len;
use crate::walk::header_value;
use crate::walk::header_written;
use crate::walk::landing;
use crate::walk::lemma_chunk_bounds;
use crate::walk::lemma_cursor_bound;
use crate::walk::lemma_gathered;
use crate::walk::lemma_header_value;
use crate::walk::lemma_reach_all;
use crate::walk::lemma_reach_bound;
use crate::walk::lemma_written_outside;
use crate::walk::lemma_reach_full;
use crate::walk::lemma_reach_lands;
use crate::walk::chunk;
use crate::walk::cursor;
use crate::walk::lemma_untouched;
use crate::walk::lemma_untouched_apart;
use crate::walk::lemma_written;
use crate::walk::reach;
use crate::walk::written;

verus! {

/// The steps that a key gives for a stride are as many as asked for; each
/// is below the stride, and 0 where the stride is 0 or 1.
pub proof fn lemma_key_steps(key: Option<Seq<char>>, stride: usize, n: nat)
    ensures
        key_steps(key, stride, n).len() == n,
        forall|j: int| 0 <= j < n ==> #[trigger] key_steps(key, stride, n)[j] < stride || key_steps(key, stride, n)[j] == 0,
        stride >= 1 ==> forall|j: int| 0 <= j < n ==> #[trigger] key_steps(key, stride, n)[j] < stride,
{
}

/// A configuration whose window does not lie inside a byte makes no codec:
/// whatever the carrier, be it an image, a file's bytes or the components of
/// a JPEG image, the answer is `InvalidParameters`.
pub proof fn law_window_legality(image: RasterView, buffer: Seq<u8>, components: Seq<Component>, cfg: EmbedConfig)
    requires
        cfg.depth + cfg.bits > 8,
    ensures
        carrier_check(image, cfg) == Err::<(), Error>(Error::InvalidParameters),
        opened(buffer, cfg) == Err::<RasterView, Error>(Error::InvalidParameters),
        coefficient_check(components, cfg) == Err::<Seq<i16>, Error>(Error::InvalidParameters),
{
}

/// The capacity boundary. A carrier of `n` samples holds `(n - 32) * bits`
/// payload bits. A payload that is not empty and has more bits than that is
/// refused with `TooMuchData`; one that has no more than that is embedded,
/// provided the stride is left to the planner.
pub proof fn law_capacity_boundary(samples: Seq<u8>, cfg: EmbedConfig, data: Seq<u8>)
    requires
        data.len() > 0,
        samples.len() <= usize::MAX,
    ensures
        8 * data.len() > capacity_bits(samples.len(), cfg.bits) ==> encode_result(samples, cfg, data) == Err::<
            (),
            Error,
        >(Error::TooMuchData),
        8 * data.len() <= capacity_bits(samples.len(), cfg.bits) && cfg.max_step is None ==> encode_result(
            samples,
            cfg,
            data,
        ) == Ok::<(), Error>(()),
{
    let total = capacity_bits(samples.len(), cfg.bits);
    if 8 * data.len() <= total && cfg.max_step is None {
        lemma_capacity_positive(samples.len(), cfg.bits);
        lemma_stride_fits(samples.len(), cfg.bits, data.len());
        let stride = stride_for(total, cfg.bits, data.len(), None)->Ok_0;
        let n = chunk_count(bits_of(data).len(), cfg.bits);
        assert(n == chunks_for(data.len(), cfg.bits));
        let steps = payload_steps(cfg, data, stride);
        lemma_key_steps(cfg.key, stride, n);
        let free = header_free(samples.len());
        assert(n * stride <= free) by (nonlinear_arith)
            requires
                stride * n <= free,
        ;
        assert(samples.len() == 32 + free);
        assert forall|j: nat| j < n implies landing(32, steps, j) < samples.len() by {
            lemma_cursor_bound(32, steps, stride as int, j);
            assert(steps[j as int] < stride);
            assert((j + 1) * stride <= n * stride && (j + 1) * stride == j * stride + stride) by (nonlinear_arith)
                requires
                    j + 1 <= n,
                    0 <= stride,
            ;
        }
        lemma_reach_all(32, steps, samples.len(), n);
    }
}

/// The header, one bit a sample. Storing a length header leaves, in each of
/// the first 32 samples, bit `i` of the length at bit `depth` and 0 in the
/// other bits of the window, whatever `bits` and `depth` are; the bits
/// outside the window and the samples from the 33rd on stay as they were;
/// and the length read back is the length stored.
pub proof fn law_header_one_bit_a_sample(samples: Seq<u8>, depth: nat, bits: nat, len: u32)
    requires
        1 <= bits,
        depth + bits <= 8,
        samples.len() >= 32,
    ensures
        header_written(samples, depth, bits, len).len() == samples.len(),
        forall|i: int, j: int|
            0 <= i < 32 && 0 <= j < 8 ==> #[trigger] byte_bit(header_written(samples, depth, bits, len)[i], j) == (
            if j == depth {
                u32_bit(len, i)
            } else if depth < j < depth + bits {
                false
            } else {
                byte_bit(samples[i], j)
            }),
        forall|i: int| 32 <= i < samples.len() ==> #[trigger] header_written(samples, depth, bits, len)[i] == samples[i],
        header_bits(header_written(samples, depth, bits, len), depth) == u32_bits(len),
        header_len(header_written(samples, depth, bits, len), depth) == len,
{
    let after = header_written(samples, depth, bits, len);
    assert forall|i: int, j: int| 0 <= i < 32 && 0 <= j < 8 implies #[trigger] byte_bit(after[i], j) == (if j
        == depth {
        u32_bit(len, i)
    } else if depth < j < depth + bits {
        false
    } else {
        byte_bit(samples[i], j)
    }) by {
        let value = header_value(u32_bit(len, i));
        lemma_header_value(u32_bit(len, i), bits);
        lemma_put_field_bits(samples[i], value, depth, bits);
        assert(after[i] == put_field(samples[i], value, depth, bits));
        assert(byte_bit(put_field(samples[i], value, depth, bits), j) == (if depth <= j < depth + bits {
            byte_bit(value, j - depth)
        } else {
            byte_bit(samples[i], j)
        }));
    }
    assert forall|i: int| 0 <= i < 32 implies header_bits(after, depth)[i] == u32_bits(len)[i] by {
        assert(byte_bit(after[i], depth as int) == u32_bit(len, i));
    }
    assert(header_bits(after, depth) =~= u32_bits(len));
    lemma_word_of_u32_bits(len, u32_bits(len));
}

/// A walk whose steps are all 0 lands on sample after sample.
pub proof fn lemma_walk_without_stride(seek: int, steps: Seq<usize>, j: nat)
    requires
        forall|i: int| 0 <= i <= j ==> steps[i] == 0,
    ensures
        cursor(seek, steps, j) == seek + j,
        landing(seek, steps, j) == seek + j,
    decreases j,
{
    if j > 0 {
        lemma_walk_without_stride(seek, steps, (j - 1) as nat);
    }
}

/// With one bit a sample the header is a walk: storing the 32 bits of a
/// length from sample 0 on, at a stride of 0 or 1 and under any key, leaves
/// what storing the length header leaves. With a wider window it does not:
/// the header takes one bit a sample whatever `bits` is.
pub proof fn law_header_is_a_walk_of_single_bits(
    samples: Seq<u8>,
    depth: nat,
    key: Option<Seq<char>>,
    max_step: usize,
    data: Seq<u8>,
    len: u32,
)
    requires
        depth < 8,
        max_step <= 1,
        samples.len() >= 32,
        bits_of(data) == u32_bits(len),
    ensures
        chunk_count(bits_of(data).len(), 1) == 32,
        reach(0, key_steps(key, max_step, 32), samples.len(), 32) == 32,
        written(samples, depth, 1, bits_of(data), 0, key_steps(key, max_step, 32), 32) == header_written(
            samples,
            depth,
            1,
            len,
        ),
{
    let steps = key_steps(key, max_step, 32);
    let payload = bits_of(data);
    assert forall|j: nat| j < 32 implies landing(0, steps, j) == j by {
        lemma_walk_without_stride(0, steps, j);
    }
    lemma_reach_all(0, steps, samples.len(), 32);
    lemma_written(samples, depth, 1, payload, 0, steps, 32);
    let after = written(samples, depth, 1, payload, 0, steps, 32);
    let header = header_written(samples, depth, 1, len);
    assert forall|p: int| 0 <= p < samples.len() implies after[p] == header[p] by {
        if p < 32 {
            let j = p as nat;
            assert(landing(0, steps, j) == p);
            lemma_chunk_bounds(payload.len(), 1, j);
            let piece = chunk(payload, j, 1);
            assert(piece =~= seq![u32_bit(len, p)]);
            lemma_header_value(u32_bit(len, p), 1);
        } else {
            lemma_untouched_apart(0, steps, 32, p);
        }
    }
    assert(after =~= header);
}

/// Header determinism. Whenever the planner lets a payload in, sample `i` of
/// the first 32 has its window cleared and bit `i` of the payload's length at
/// the window's lowest bit, whatever the key, the stride and the payload's
/// bytes; the walk that stores the payload does not come back to them.
pub proof fn law_header_determinism(samples: Seq<u8>, cfg: EmbedConfig, data: Seq<u8>)
    requires
        cfg.valid(),
        encode_plan(samples.len(), cfg, data.len()) is Ok,
    ensures
        encoded(samples, cfg, data).len() == samples.len(),
        forall|i: int|
            0 <= i < 32 ==> #[trigger] encoded(samples, cfg, data)[i] == put_field(
                samples[i],
                header_value(u32_bit(data.len() as u32, i)),
                cfg.depth,
                cfg.bits,
            ),
        header_bits(encoded(samples, cfg, data), cfg.depth) == u32_bits(data.len() as u32),
{
    let stride = encode_plan(samples.len(), cfg, data.len())->Ok_0;
    let len = data.len() as u32;
    let with_header = header_written(samples, cfg.depth, cfg.bits, len);
    let n = chunk_count(bits_of(data).len(), cfg.bits);
    let steps = payload_steps(cfg, data, stride);
    let got = payload_reach(samples, cfg, data, stride);
    lemma_capacity_positive(samples.len(), cfg.bits);
    lemma_reach_lands(32, steps, samples.len(), n);
    lemma_written(with_header, cfg.depth, cfg.bits, bits_of(data), 32, steps, got);
    let after = encoded(samples, cfg, data);
    assert forall|i: int| 0 <= i < 32 implies #[trigger] after[i] == put_field(
        samples[i],
        header_value(u32_bit(len, i)),
        cfg.depth,
        cfg.bits,
    ) by {
        lemma_untouched(32, steps, got, i);
    }
    assert forall|i: int| 0 <= i < 32 implies header_bits(after, cfg.depth)[i] == u32_bits(len)[i] by {
        lemma_header_value(u32_bit(len, i), cfg.bits);
        lemma_put_field_bits(samples[i], header_value(u32_bit(len, i)), cfg.depth, cfg.bits);
        assert(after[i] == put_field(samples[i], header_value(u32_bit(len, i)), cfg.depth, cfg.bits));
    }
    assert(header_bits(after, cfg.depth) =~= u32_bits(len));
}

/// Embedding keeps the carrier's length and changes no bit outside the
/// windows of its samples.
pub proof fn law_window_only(samples: Seq<u8>, cfg: EmbedConfig, data: Seq<u8>)
    requires
        cfg.valid(),
    ensures
        encoded(samples, cfg, data).len() == samples.len(),
        forall|p: int|
            0 <= p < samples.len() ==> outside(#[trigger] encoded(samples, cfg, data)[p], cfg.depth, cfg.bits)
                == outside(samples[p], cfg.depth, cfg.bits),
{
    if encode_plan(samples.len(), cfg, data.len()) is Ok {
        let stride = encode_plan(samples.len(), cfg, data.len())->Ok_0;
        let len = data.len() as u32;
        let with_header = header_written(samples, cfg.depth, cfg.bits, len);
        let n = chunk_count(bits_of(data).len(), cfg.bits);
        let steps = payload_steps(cfg, data, stride);
        let got = payload_reach(samples, cfg, data, stride);
        lemma_reach_lands(32, steps, samples.len(), n);
        lemma_reach_bound(32, steps, samples.len(), n);
        lemma_written_outside(with_header, cfg.depth, cfg.bits, bits_of(data), 32, steps, got);
        assert forall|p: int| 0 <= p < samples.len() implies outside(with_header[p], cfg.depth, cfg.bits) == outside(
            samples[p],
            cfg.depth,
            cfg.bits,
        ) by {
            if p < 32 {
                lemma_header_value(u32_bit(len, p), cfg.bits);
                lemma_put_field_outside(samples[p], header_value(u32_bit(len, p)), cfg.depth, cfg.bits);
            }
        }
    }
}

/// The round trip. What was embedded is what extraction gives back, under the
/// same configuration: for a payload whose length fits the 32-bit header and
/// whose embedding succeeded. Where the caller chose the stride, the decoder
/// takes the payload's length from the carrier's size, so the payload must
/// have that length.
pub proof fn law_round_trip(samples: Seq<u8>, cfg: EmbedConfig, data: Seq<u8>)
    requires
        cfg.valid(),
        samples.len() <= usize::MAX,
        data.len() <= u32::MAX,
        encode_result(samples, cfg, data) is Ok,
        cfg.max_step matches Some(m) ==> m > 0 && (samples.len() / (m as nat)) / 8 == data.len(),
    ensures
        decoded(encoded(samples, cfg, data), cfg) == Ok::<Seq<u8>, Error>(data),
{
    let stride = encode_plan(samples.len(), cfg, data.len())->Ok_0;
    let len = data.len() as u32;
    let payload = bits_of(data);
    let with_header = header_written(samples, cfg.depth, cfg.bits, len);
    let n = chunk_count(payload.len(), cfg.bits);
    let steps = payload_steps(cfg, data, stride);
    let after = encoded(samples, cfg, data);
    lemma_capacity_positive(samples.len(), cfg.bits);
    law_header_determinism(samples, cfg, data);
    lemma_word_of_u32_bits(len, u32_bits(len));
    assert(header_len(after, cfg.depth) == len);
    assert(read_plan(after.len(), cfg.bits, len as nat, cfg.max_step) == Ok::<(usize, usize), Error>(
        (data.len() as usize, stride),
    ));
    assert(n == chunk_count(8 * (data.len() as usize) as nat, cfg.bits));
    lemma_written(with_header, cfg.depth, cfg.bits, payload, 32, steps, n);
    lemma_gathered(with_header, after, cfg.depth, cfg.bits, payload, 32, steps, n);
    lemma_chunk_bounds(payload.len(), cfg.bits, n);
    let found = gathered(after, cfg.depth, cfg.bits, 32, steps, n).take(8 * (data.len() as usize));
    assert(found =~= payload);
    lemma_bytes_of_bits_of(data);
    assert(collected(after, cfg, data.len() as usize, 32, stride) == Ok::<Seq<u8>, Error>(data));
}

/// The round trip within the capacity. With the stride left to the planner,
/// every payload that is not empty, fits the carrier and has a length that
/// fits the 32-bit header is embedded, and extraction gives it back.
pub proof fn law_round_trip_within_capacity(samples: Seq<u8>, cfg: EmbedConfig, data: Seq<u8>)
    requires
        cfg.valid(),
        cfg.max_step is None,
        samples.len() <= usize::MAX,
        0 < data.len() <= u32::MAX,
        8 * data.len() <= capacity_bits(samples.len(), cfg.bits),
    ensures
        encode_result(samples, cfg, data) == Ok::<(), Error>(()),
        decoded(encoded(samples, cfg, data), cfg) == Ok::<Seq<u8>, Error>(data),
{
    law_capacity_boundary(samples, cfg, data);
    law_round_trip(samples, cfg, data);
}

/// Selective agreement. Where every coefficient that takes part has a bit
/// set outside the window, embedding leaves the same coefficients taking
/// part: the decoder walks the places that the encoder walked, and finds
/// there the carrier that the encoder left.
pub proof fn law_selective_agreement(coefs: Seq<i16>, cfg: EmbedConfig, data: Seq<u8>)
    requires
        cfg.valid(),
        cfg.selective ==> forall|i: int|
            0 <= i < positions(coefs, cfg).len() ==> steady(cfg, coefs[#[trigger] positions(coefs, cfg)[i]]),
    ensures
        coefficients_encoded(coefs, cfg, data).len() == coefs.len(),
        positions(coefficients_encoded(coefs, cfg, data), cfg) == positions(coefs, cfg),
        surface(coefficients_encoded(coefs, cfg, data), positions(coefs, cfg)) == encoded(
            surface(coefs, positions(coefs, cfg)),
            cfg,
            data,
        ),
{
    let places = positions(coefs, cfg);
    let before = surface(coefs, places);
    let bytes = encoded(before, cfg, data);
    let after = coefficients_encoded(coefs, cfg, data);
    lemma_visible(coefs, cfg, coefs.len());
    law_window_only(before, cfg, data);
    lemma_scattered(coefs, places, bytes, places.len());
    assert forall|p: int| 0 <= p < coefs.len() implies skips(cfg, p % 64, #[trigger] coefs[p]) == skips(
        cfg,
        p % 64,
        after[p],
    ) by {
        if cfg.selective {
            if skips(cfg, p % 64, coefs[p]) {
                assert(forall|i: int| 0 <= i < places.len() ==> places[i] != p);
            } else {
                let i = choose|i: int| 0 <= i < places.len() && places[i] == p;
                assert(steady(cfg, coefs[places[i]]));
                assert(outside(bytes[i], cfg.depth, cfg.bits) == outside(before[i], cfg.depth, cfg.bits));
                lemma_steady(cfg, p % 64, coefs[p], bytes[i]);
            }
        }
    }
    lemma_visible_alike(coefs, after, cfg, coefs.len());
    assert forall|i: int| 0 <= i < places.len() implies surface(after, places)[i] == bytes[i] by {
        lemma_low_byte(coefs[places[i]], bytes[i]);
        assert(after[places[i]] == with_low_byte(coefs[places[i]], bytes[i]));
    }
    assert(surface(after, places) =~= bytes);
}

/// The round trip through JPEG coefficients: a payload that was embedded in
/// the coefficients that take part is what extraction from the coefficients
/// gives back, where every coefficient that takes part has a bit set outside
/// the window. With one bit a sample every such coefficient has.
pub proof fn law_selective_round_trip(coefs: Seq<i16>, cfg: EmbedConfig, data: Seq<u8>)
    requires
        cfg.valid(),
        cfg.selective && cfg.bits != 1 ==> forall|i: int|
            0 <= i < positions(coefs, cfg).len() ==> steady(cfg, coefs[#[trigger] positions(coefs, cfg)[i]]),
        positions(coefs, cfg).len() <= usize::MAX,
        data.len() <= u32::MAX,
        encode_result(surface(coefs, positions(coefs, cfg)), cfg, data) is Ok,
        cfg.max_step matches Some(m) ==> m > 0 && (positions(coefs, cfg).len() / (m as nat)) / 8 == data.len(),
    ensures
        decoded(
            surface(coefficients_encoded(coefs, cfg, data), positions(coefficients_encoded(coefs, cfg, data), cfg)),
            cfg,
        ) == Ok::<Seq<u8>, Error>(data),
{
    let places = positions(coefs, cfg);
    lemma_visible(coefs, cfg, coefs.len());
    if cfg.selective && cfg.bits == 1 {
        assert forall|i: int| 0 <= i < places.len() implies steady(cfg, coefs[#[trigger] places[i]]) by {
            lemma_one_bit_steady(cfg, places[i] % 64, coefs[places[i]]);
        }
    }
    law_selective_agreement(coefs, cfg, data);
    law_round_trip(surface(coefs, places), cfg, data);
}

/// Selective agreement from carrier to carrier. Take the components of a
/// JPEG image that make an encoder, embed a payload that fits, with the
/// stride left to the planner, and put the coefficients back into the
/// components. Those components make a decoder under the same configuration;
/// it walks the places the encoder walked, so it holds as many payload bits;
/// and it gives the payload back. This holds with one bit a sample, and with
/// more where every coefficient that takes part has a bit set outside the
/// window; the payload's length must fit the 32-bit header.
pub proof fn law_selective_carrier_round_trip(
    before: Seq<Component>,
    after: Seq<Component>,
    cfg: EmbedConfig,
    data: Seq<u8>,
)
    requires
        coefficient_check(before, cfg) is Ok,
        selected(after, cfg.jpeg_comp) == Ok::<Seq<i16>, Error>(
            coefficients_encoded(coefficient_check(before, cfg)->Ok_0, cfg, data),
        ),
        cfg.selective && cfg.bits != 1 ==> forall|i: int|
            0 <= i < positions(coefficient_check(before, cfg)->Ok_0, cfg).len() ==> steady(
                cfg,
                coefficient_check(before, cfg)->Ok_0[#[trigger] positions(
                    coefficient_check(before, cfg)->Ok_0,
                    cfg,
                )[i]],
            ),
        cfg.max_step is None,
        0 < data.len() <= u32::MAX,
        8 * data.len() <= capacity_bits(positions(coefficient_check(before, cfg)->Ok_0, cfg).len(), cfg.bits),
    ensures
        encode_result(
            surface(coefficient_check(before, cfg)->Ok_0, positions(coefficient_check(before, cfg)->Ok_0, cfg)),
            cfg,
            data,
        ) == Ok::<(), Error>(()),
        coefficient_check(after, cfg) == Ok::<Seq<i16>, Error>(
            coefficients_encoded(coefficient_check(before, cfg)->Ok_0, cfg, data),
        ),
        positions(coefficient_check(after, cfg)->Ok_0, cfg) == positions(coefficient_check(before, cfg)->Ok_0, cfg),
        decoded(
            surface(coefficient_check(after, cfg)->Ok_0, positions(coefficient_check(after, cfg)->Ok_0, cfg)),
            cfg,
        ) == Ok::<Seq<u8>, Error>(data),
{
    let coefs = coefficient_check(before, cfg)->Ok_0;
    let places = positions(coefs, cfg);
    lemma_visible(coefs, cfg, coefs.len());
    if cfg.selective && cfg.bits == 1 {
        assert forall|i: int| 0 <= i < places.len() implies steady(cfg, coefs[#[trigger] places[i]]) by {
            lemma_one_bit_steady(cfg, places[i] % 64, coefs[places[i]]);
        }
    }
    law_capacity_boundary(surface(coefs, places), cfg, data);
    law_selective_agreement(coefs, cfg, data);
    law_selective_round_trip(coefs, cfg, data);
}

} // verus!
