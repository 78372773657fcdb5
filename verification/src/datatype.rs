//! The two payload encodings and their decoders.

use crate::sample::{read_le_i16, read_le_u32, scale_i16, IqSample};
use vstd::prelude::*;

verus! {

/// How the samples of a recording are stored: interleaved little-endian pairs.
#[derive(Clone, Copy, Debug, PartialEq, Eq, Structural)]
pub enum DataType {
    /// IEEE-754 single-precision pairs, taken as they are.
    Cf32Le,
    /// 16-bit two's-complement pairs, scaled by `1/32768`.
    Ci16Le,
}

/// A datatype name that names no supported encoding.
#[derive(Debug)]
pub struct UnsupportedDataType {
    /// The name as it was given.
    pub name: String,
}

/// The encoding that a datatype name stands for, if it is supported.
pub open spec fn data_type_named(name: Seq<char>) -> Option<DataType> {
    if name == "cf32_le"@ {
        Some(DataType::Cf32Le)
    } else if name == "ci16_le"@ {
        Some(DataType::Ci16Le)
    } else {
        None
    }
}

/// The two supported names are different.
proof fn lemma_names_differ()
    ensures
        "cf32_le"@ != "ci16_le"@,
{
    reveal_strlit("cf32_le");
    reveal_strlit("ci16_le");
    assert("cf32_le"@[1] != "ci16_le"@[1]);
}

/// Exactly two names are supported, letter by letter: `cf32_le` for
/// single-precision floats and `ci16_le` for 16-bit integers.
pub proof fn law_supported_names(name: Seq<char>)
    ensures
        data_type_named(name) == Some(DataType::Cf32Le) <==> name == seq![
            'c',
            'f',
            '3',
            '2',
            '_',
            'l',
            'e',
        ],
        data_type_named(name) == Some(DataType::Ci16Le) <==> name == seq![
            'c',
            'i',
            '1',
            '6',
            '_',
            'l',
            'e',
        ],
{
    reveal_strlit("cf32_le");
    reveal_strlit("ci16_le");
    assert("cf32_le"@ =~= seq!['c', 'f', '3', '2', '_', 'l', 'e']);
    assert("ci16_le"@ =~= seq!['c', 'i', '1', '6', '_', 'l', 'e']);
    lemma_names_differ();
}

impl DataType {
    /// Bytes that one IQ pair occupies.
    pub open spec fn sample_size(self) -> int {
        match self {
            DataType::Cf32Le => 8,
            DataType::Ci16Le => 4,
        }
    }

    /// The sample stored at index `k` of `bytes`.
    pub open spec fn sample_at(self, bytes: Seq<u8>, k: int) -> IqSample {
        match self {
            DataType::Cf32Le => IqSample {
                re: crate::sample::le_u32(bytes, 8 * k),
                im: crate::sample::le_u32(bytes, 8 * k + 4),
            },
            DataType::Ci16Le => IqSample {
                re: crate::sample::scaled_i16(crate::sample::le_i16(bytes, 4 * k)),
                im: crate::sample::scaled_i16(crate::sample::le_i16(bytes, 4 * k + 2)),
            },
        }
    }

    /// All whole samples that `bytes` holds, in order.
    pub open spec fn decoded(self, bytes: Seq<u8>) -> Seq<IqSample> {
        Seq::new(self.samples_in(bytes.len()), |k: int| self.sample_at(bytes, k))
    }

    /// How many whole samples `available` bytes hold.
    pub open spec fn samples_in(self, available: nat) -> nat {
        match self {
            DataType::Cf32Le => available / 8,
            DataType::Ci16Le => available / 4,
        }
    }

    /// How many of `available` bytes are left over behind the last whole sample.
    pub open spec fn partial(self, available: nat) -> nat {
        match self {
            DataType::Cf32Le => available % 8,
            DataType::Ci16Le => available % 4,
        }
    }

    /// The length of the longest prefix of `available` bytes that splits no sample.
    pub open spec fn whole(self, available: nat) -> int {
        available - self.partial(available)
    }

    /// Looks up a datatype name.
    pub fn from_name(name: &String) -> (found: Result<DataType, UnsupportedDataType>)
        ensures
            found is Ok <==> data_type_named(name@) is Some,
            found matches Ok(datatype) ==> data_type_named(name@) == Some(datatype),
            found matches Err(error) ==> error.name@ == name@,
    {
        proof {
            lemma_names_differ();
        }
        if *name == "cf32_le".to_owned() {
            Ok(DataType::Cf32Le)
        } else if *name == "ci16_le".to_owned() {
            Ok(DataType::Ci16Le)
        } else {
            Err(UnsupportedDataType { name: name.clone() })
        }
    }

    /// Bytes that one IQ pair occupies.
    pub fn bytes_per_sample(&self) -> (size: usize)
        ensures
            size == self.sample_size(),
    {
        match self {
            DataType::Cf32Le => 8,
            DataType::Ci16Le => 4,
        }
    }

    /// Decodes one sample.
    fn decode_sample(&self, bytes: &[u8], k: usize) -> (sample: IqSample)
        requires
            k < self.samples_in(bytes@.len()),
        ensures
            sample == self.sample_at(bytes@, k as int),
    {
        assert(bytes@.len() == bytes.len());
        match self {
            DataType::Cf32Le => IqSample {
                re: read_le_u32(bytes, 8 * k),
                im: read_le_u32(bytes, 8 * k + 4),
            },
            DataType::Ci16Le => IqSample {
                re: scale_i16(read_le_i16(bytes, 4 * k)),
                im: scale_i16(read_le_i16(bytes, 4 * k + 2)),
            },
        }
    }

    /// Decodes every whole sample of `bytes`; trailing bytes that are less than
    /// one sample are left out.
    pub fn decode(&self, bytes: &[u8]) -> (samples: Vec<IqSample>)
        ensures
            samples@ == self.decoded(bytes@),
    {
        let count: usize = bytes.len() / self.bytes_per_sample();
        let mut samples: Vec<IqSample> = Vec::with_capacity(count);
        let mut k: usize = 0;
        while k < count
            invariant
                k <= count,
                count == self.samples_in(bytes@.len()),
                samples@.len() == k,
                forall|j: int| 0 <= j < k ==> samples@[j] == self.sample_at(bytes@, j),
            decreases count - k,
        {
            samples.push(self.decode_sample(bytes, k));
            k = k + 1;
        }
        samples
    }
}

/// The encoding of a header-less recording: a `.bin` file holds 16-bit
/// integers, any other one single-precision floats.
pub open spec fn raw_data_type(is_bin: bool) -> DataType {
    if is_bin {
        DataType::Ci16Le
    } else {
        DataType::Cf32Le
    }
}

/// Decodes a block of a header-less recording.
pub fn decode_block(bytes: &[u8], is_bin: bool) -> (samples: Vec<IqSample>)
    ensures
        samples@ == raw_data_type(is_bin).decoded(bytes@),
        is_bin ==> samples@ == DataType::Ci16Le.decoded(bytes@),
        !is_bin ==> samples@ == DataType::Cf32Le.decoded(bytes@),
{
    if is_bin {
        DataType::Ci16Le.decode(bytes)
    } else {
        DataType::Cf32Le.decode(bytes)
    }
}

/// The little-endian single-precision payload that stores `samples`.
pub open spec fn cf32_bytes(samples: Seq<IqSample>) -> Seq<u8> {
    Seq::new(
        8 * samples.len(),
        |i: int|
            {
                let sample = samples[i / 8];
                let word = if i % 8 < 4 {
                    sample.re
                } else {
                    sample.im
                };
                le_byte(word, i % 4)
            },
    )
}

/// Byte `at` of the little-endian form of `word`.
pub open spec fn le_byte(word: u32, at: int) -> u8 {
    (if at == 0 {
        word as int % 0x100
    } else if at == 1 {
        (word as int / 0x100) % 0x100
    } else if at == 2 {
        (word as int / 0x1_0000) % 0x100
    } else {
        word as int / 0x100_0000
    }) as u8
}

/// The little-endian bytes of a word read back as the word.
#[verifier::spinoff_prover]
proof fn lemma_word_from_bytes(bytes: Seq<u8>, at: int, word: u32)
    requires
        forall|j: int| 0 <= j < 4 ==> #[trigger] bytes[at + j] == le_byte(word, j),
    ensures
        crate::sample::le_u32(bytes, at) == word,
{
    assert(bytes[at + 0] == le_byte(word, 0));
    assert(bytes[at + 1] == le_byte(word, 1));
    assert(bytes[at + 2] == le_byte(word, 2));
    assert(bytes[at + 3] == le_byte(word, 3));
    crate::sample::lemma_word_parts(word as int);
}

/// Four bytes are the little-endian bytes of the word that they read as.
#[verifier::spinoff_prover]
proof fn lemma_bytes_from_word(bytes: Seq<u8>, at: int, j: int)
    requires
        0 <= j < 4,
    ensures
        le_byte(crate::sample::le_u32(bytes, at), j) == bytes[at + j],
{
    let word = crate::sample::le_u32(bytes, at) as int;
    let (b0, b1, b2, b3) = (bytes[at], bytes[at + 1], bytes[at + 2], bytes[at + 3]);
    let from_2 = b2 + 0x100 * b3;
    let from_1 = b1 + 0x100 * from_2;
    vstd::arithmetic::div_mod::lemma_fundamental_div_mod_converse(word, 0x100, from_1, b0 as int);
    vstd::arithmetic::div_mod::lemma_fundamental_div_mod_converse(from_1, 0x100, from_2, b1 as int);
    vstd::arithmetic::div_mod::lemma_fundamental_div_mod_converse(
        from_2,
        0x100,
        b3 as int,
        b2 as int,
    );
    vstd::arithmetic::div_mod::lemma_fundamental_div_mod_converse(
        word,
        0x1_0000,
        from_2,
        b0 + 0x100 * b1,
    );
    vstd::arithmetic::div_mod::lemma_fundamental_div_mod_converse(
        word,
        0x100_0000,
        b3 as int,
        b0 + 0x100 * b1 + 0x1_0000 * b2,
    );
}

/// Decoding gives back every sample, bit for bit, that was stored as
/// single-precision floats.
pub proof fn law_cf32_round_trip(samples: Seq<IqSample>)
    ensures
        DataType::Cf32Le.decoded(cf32_bytes(samples)) == samples,
{
    let bytes = cf32_bytes(samples);
    assert forall|k: int| 0 <= k < samples.len() implies DataType::Cf32Le.sample_at(bytes, k)
        == samples[k] by {
        assert forall|j: int| 0 <= j < 4 implies #[trigger] bytes[8 * k + j] == le_byte(
            samples[k].re,
            j,
        ) by {
            assert((8 * k + j) / 8 == k && (8 * k + j) % 8 == j && (8 * k + j) % 4 == j);
        }
        lemma_word_from_bytes(bytes, 8 * k, samples[k].re);
        assert forall|j: int| 0 <= j < 4 implies #[trigger] bytes[8 * k + 4 + j] == le_byte(
            samples[k].im,
            j,
        ) by {
            assert((8 * k + 4 + j) / 8 == k && (8 * k + 4 + j) % 8 == 4 + j && (8 * k + 4 + j) % 4
                == j);
        }
        lemma_word_from_bytes(bytes, 8 * k + 4, samples[k].im);
    }
    assert(DataType::Cf32Le.decoded(bytes) =~= samples);
}

/// Single-precision payloads are taken as they are: storing what was decoded
/// gives the payload back, but for bytes of a truncated last sample.
pub proof fn law_cf32_taken_as_is(bytes: Seq<u8>)
    ensures
        cf32_bytes(DataType::Cf32Le.decoded(bytes)) == bytes.take(
            DataType::Cf32Le.whole(bytes.len()),
        ),
{
    let samples = DataType::Cf32Le.decoded(bytes);
    let back = cf32_bytes(samples);
    let prefix = bytes.take(DataType::Cf32Le.whole(bytes.len()));
    assert forall|i: int| 0 <= i < back.len() implies back[i] == prefix[i] by {
        let k = i / 8;
        assert(samples[k] == DataType::Cf32Le.sample_at(bytes, k));
        if i % 8 < 4 {
            lemma_bytes_from_word(bytes, 8 * k, i % 4);
            assert(8 * k + i % 4 == i);
        } else {
            lemma_bytes_from_word(bytes, 8 * k + 4, i % 4);
            assert(8 * k + 4 + i % 4 == i);
        }
    }
    assert(back =~= prefix);
}

/// A 16-bit payload decodes to its integers divided by `32768`, exactly.
pub proof fn law_ci16_exact(bytes: Seq<u8>, k: int)
    requires
        0 <= k < DataType::Ci16Le.samples_in(bytes.len()),
    ensures
        ({
            let sample = DataType::Ci16Le.decoded(bytes)[k];
            let one = vstd::arithmetic::power2::pow2(149);
            &&& crate::sample::f32_units(sample.re) * 32768 == crate::sample::le_i16(bytes, 4 * k)
                * one
            &&& crate::sample::f32_units(sample.im) * 32768 == crate::sample::le_i16(
                bytes,
                4 * k + 2,
            ) * one
        }),
{
    crate::sample::law_scaled_exact(crate::sample::le_i16(bytes, 4 * k));
    crate::sample::law_scaled_exact(crate::sample::le_i16(bytes, 4 * k + 2));
}

/// A 16-bit payload decodes to the integers that were stored: for pairs stored as
/// little-endian two's-complement integers, each component times `32768` is the
/// stored integer, negative ones included, and zero comes out as positive zero.
pub proof fn law_ci16_round_trip(pairs: Seq<(i16, i16)>, bytes: Seq<u8>)
    requires
        bytes.len() == 4 * pairs.len(),
        forall|k: int|
            #![trigger pairs[k]]
            0 <= k < pairs.len() ==> {
                &&& bytes[4 * k] == pairs[k].0 as int % 0x1_0000 % 0x100
                &&& bytes[4 * k + 1] == pairs[k].0 as int % 0x1_0000 / 0x100
                &&& bytes[4 * k + 2] == pairs[k].1 as int % 0x1_0000 % 0x100
                &&& bytes[4 * k + 3] == pairs[k].1 as int % 0x1_0000 / 0x100
            },
    ensures
        DataType::Ci16Le.decoded(bytes).len() == pairs.len(),
        forall|k: int|
            #![trigger pairs[k]]
            #![trigger DataType::Ci16Le.decoded(bytes)[k]]
            0 <= k < pairs.len() ==> {
                let sample = DataType::Ci16Le.decoded(bytes)[k];
                let one = vstd::arithmetic::power2::pow2(149);
                &&& crate::sample::f32_exponent(sample.re) < 255
                &&& crate::sample::f32_exponent(sample.im) < 255
                &&& crate::sample::f32_units(sample.re) * 32768 == pairs[k].0 * one
                &&& crate::sample::f32_units(sample.im) * 32768 == pairs[k].1 * one
                &&& pairs[k].0 == 0 ==> sample.re == 0
                &&& pairs[k].1 == 0 ==> sample.im == 0
            },
{
    let samples = DataType::Ci16Le.decoded(bytes);
    assert forall|k: int| #![trigger pairs[k]] #![trigger samples[k]] 0 <= k < pairs.len() implies {
        let sample = samples[k];
        let one = vstd::arithmetic::power2::pow2(149);
        &&& crate::sample::f32_exponent(sample.re) < 255
        &&& crate::sample::f32_exponent(sample.im) < 255
        &&& crate::sample::f32_units(sample.re) * 32768 == pairs[k].0 * one
        &&& crate::sample::f32_units(sample.im) * 32768 == pairs[k].1 * one
        &&& pairs[k].0 == 0 ==> sample.re == 0
        &&& pairs[k].1 == 0 ==> sample.im == 0
    } by {
        crate::sample::law_i16_read_back(pairs[k].0, bytes, 4 * k);
        crate::sample::law_i16_read_back(pairs[k].1, bytes, 4 * k + 2);
        crate::sample::law_scaled_exact(pairs[k].0);
        crate::sample::law_scaled_exact(pairs[k].1);
    }
}

/// Every byte of a single-precision payload is found again in the sample that it
/// belongs to: four bytes for the in-phase component, lowest first, then four
/// for the quadrature component.
pub proof fn law_cf32_keeps_every_byte(bytes: Seq<u8>, k: int)
    requires
        0 <= k,
        8 * k + 8 <= bytes.len(),
    ensures
        k < DataType::Cf32Le.decoded(bytes).len(),
        ({
            let sample = DataType::Cf32Le.decoded(bytes)[k];
            &&& sample.re as int % 0x100 == bytes[8 * k]
            &&& sample.re as int / 0x100 % 0x100 == bytes[8 * k + 1]
            &&& sample.re as int / 0x1_0000 % 0x100 == bytes[8 * k + 2]
            &&& sample.re as int / 0x100_0000 == bytes[8 * k + 3]
            &&& sample.im as int % 0x100 == bytes[8 * k + 4]
            &&& sample.im as int / 0x100 % 0x100 == bytes[8 * k + 5]
            &&& sample.im as int / 0x1_0000 % 0x100 == bytes[8 * k + 6]
            &&& sample.im as int / 0x100_0000 == bytes[8 * k + 7]
        }),
{
    assert forall|at: int, j: int| 0 <= j < 4 implies #[trigger] le_byte(
        crate::sample::le_u32(bytes, at),
        j,
    ) == bytes[at + j] by {
        lemma_bytes_from_word(bytes, at, j);
    }
    let sample = DataType::Cf32Le.decoded(bytes)[k];
    assert(le_byte(sample.re, 0) == bytes[8 * k + 0]);
    assert(le_byte(sample.re, 1) == bytes[8 * k + 1]);
    assert(le_byte(sample.re, 2) == bytes[8 * k + 2]);
    assert(le_byte(sample.re, 3) == bytes[8 * k + 3]);
    assert(le_byte(sample.im, 0) == bytes[8 * k + 4 + 0]);
    assert(le_byte(sample.im, 1) == bytes[8 * k + 4 + 1]);
    assert(le_byte(sample.im, 2) == bytes[8 * k + 4 + 2]);
    assert(le_byte(sample.im, 3) == bytes[8 * k + 4 + 3]);
}

/// Different payloads of whole samples decode differently.
pub proof fn law_payloads_told_apart(datatype: DataType, bytes: Seq<u8>, others: Seq<u8>)
    requires
        datatype == DataType::Cf32Le ==> bytes.len() % 8 == 0 && others.len() % 8 == 0,
        datatype == DataType::Ci16Le ==> bytes.len() % 4 == 0 && others.len() % 4 == 0,
        datatype.decoded(bytes) == datatype.decoded(others),
    ensures
        bytes == others,
{
    let samples = datatype.decoded(bytes);
    assert(samples.len() == datatype.decoded(others).len());
    match datatype {
        DataType::Cf32Le => {
            law_cf32_taken_as_is(bytes);
            law_cf32_taken_as_is(others);
            assert(bytes.take(bytes.len() as int) =~= bytes);
            assert(others.take(others.len() as int) =~= others);
        },
        DataType::Ci16Le => {
            assert forall|i: int| 0 <= i < bytes.len() implies bytes[i] == others[i] by {
                let k = i / 4;
                assert(samples[k] == datatype.sample_at(bytes, k));
                assert(samples[k] == datatype.sample_at(others, k));
                lemma_scaled_apart(
                    crate::sample::le_i16(bytes, 4 * k),
                    crate::sample::le_i16(others, 4 * k),
                );
                lemma_scaled_apart(
                    crate::sample::le_i16(bytes, 4 * k + 2),
                    crate::sample::le_i16(others, 4 * k + 2),
                );
                assert(i == 4 * k || i == 4 * k + 1 || i == 4 * k + 2 || i == 4 * k + 3);
            }
            assert(bytes =~= others);
        },
    }
}

/// Integers that scale to the same number are equal.
proof fn lemma_scaled_apart(v: i16, w: i16)
    requires
        crate::sample::scaled_i16(v) == crate::sample::scaled_i16(w),
    ensures
        v == w,
{
    let one = vstd::arithmetic::power2::pow2(149) as int;
    crate::sample::law_scaled_exact(v);
    crate::sample::law_scaled_exact(w);
    vstd::arithmetic::power2::lemma_pow2_pos(149);
    assert(v == w) by (nonlinear_arith)
        requires
            v * one == w * one,
            one > 0,
    ;
}

/// A single-precision pair takes eight bytes and a 16-bit pair four. What is
/// decoded are all whole pairs, and fewer bytes than a pair are left behind them.
pub proof fn law_pair_sizes(datatype: DataType, bytes: Seq<u8>)
    ensures
        ({
            let size: int = if datatype == DataType::Cf32Le {
                8
            } else {
                4
            };
            let count = datatype.decoded(bytes).len();
            let behind = datatype.partial(bytes.len());
            &&& datatype.sample_size() == size
            &&& count == datatype.samples_in(bytes.len())
            &&& bytes.len() == count * size + behind
            &&& behind < size
            &&& datatype.whole(bytes.len()) == count * size
        }),
{
    law_no_pair_split(datatype, bytes.len());
}

/// A block cut at a sample boundary decodes to the samples of its two parts.
pub proof fn law_decode_concatenates(datatype: DataType, front: Seq<u8>, back: Seq<u8>)
    requires
        datatype.partial(front.len()) == 0,
    ensures
        datatype.decoded(front + back) == datatype.decoded(front) + datatype.decoded(back),
{
    let n = datatype.samples_in(front.len()) as int;
    let left = datatype.decoded(front + back);
    let right = datatype.decoded(front) + datatype.decoded(back);
    assert(left.len() == right.len());
    assert forall|k: int| 0 <= k < left.len() implies left[k] == right[k] by {
        if k >= n {
            assert(right[k] == datatype.sample_at(back, k - n));
        }
    }
    assert(left =~= right);
}

/// The prefix that is decoded never splits an IQ pair, and what is left behind
/// it is less than one.
pub proof fn law_no_pair_split(datatype: DataType, available: nat)
    ensures
        datatype.whole(available) == datatype.samples_in(available) * datatype.sample_size(),
        0 <= available - datatype.whole(available) < datatype.sample_size(),
{
    let count = datatype.samples_in(available) as int;
    match datatype {
        DataType::Cf32Le => assert(count * datatype.sample_size() == count * 8),
        DataType::Ci16Le => assert(count * datatype.sample_size() == count * 4),
    }
}

/// The whole samples of `front + back` bytes are those of the first `front`
/// bytes, and those that the rest of them makes with the other `back` bytes.
pub proof fn lemma_whole_resumes(datatype: DataType, front: nat, back: nat)
    ensures
        0 <= datatype.whole(front) <= front,
        datatype.partial(datatype.whole(front) as nat) == 0,
        datatype.whole(front + back) == datatype.whole(front) + datatype.whole(
            (front - datatype.whole(front) + back) as nat,
        ),
{
    let total = (front + back) as int;
    match datatype {
        DataType::Cf32Le => {
            let count = front as int / 8;
            assert(front == 8 * count + front as int % 8);
            assert((8 * count) % 8 == 0);
            assert(total % 8 == (total - 8 * count) % 8);
        },
        DataType::Ci16Le => {
            let count = front as int / 4;
            assert(front == 4 * count + front as int % 4);
            assert((4 * count) % 4 == 0);
            assert(total % 4 == (total - 4 * count) % 4);
        },
    }
}

/// Bytes of a truncated last sample decode to nothing.
pub proof fn law_truncated_tail_ignored(datatype: DataType, bytes: Seq<u8>)
    ensures
        datatype.decoded(bytes) == datatype.decoded(bytes.take(datatype.whole(bytes.len()))),
{
    let prefix = bytes.take(datatype.whole(bytes.len()));
    assert(datatype.decoded(bytes) =~= datatype.decoded(prefix));
}

} // verus!
