//! The identifier codec: packing a microsecond timestamp, a shard tag and
//! a random field into one 128-bit value under a fixed layout, and
//! reading the fields back.
//!
//! Layout, from the most significant bit of the 128:
//! `time_high` (48) | `version` = 8 (4) | `time_low` (6) | `shard_high` (6)
//! | `variant` = 2 (2) | `shard_low` (26) | `random` (36).
//! The timestamp occupies the leading bits, so the raw 128-bit magnitude
//! orders identifiers chronologically.

use vstd::prelude::*;

use crate::calendar;
use crate::clock;
use crate::errors::MicroShardError;
use crate::iso;
use crate::rng::SimpleRng;
use vstd::string::StringExecFns;

verus! {

/// The largest shard tag: the full 32-bit range.
pub const MAX_SHARD_ID: u32 = 4_294_967_295;

/// The largest representable timestamp, `2^54 - 1` microseconds since
/// the Unix epoch (roughly the year 2541).
pub const MAX_TIME_MICROS: u64 = 18_014_398_509_481_983;

/// The mask of the 36-bit random field.
pub const MAX_RANDOM: u64 = 68_719_476_735;

/// The version field of a raw 128-bit value: four bits below the leading
/// 48 timestamp bits.
pub open spec fn spec_version(v: u128) -> u8 {
    ((v >> 76) & 0xF) as u8
}

/// The variant field of a raw 128-bit value: the top two bits of the low
/// 64-bit half.
pub open spec fn spec_variant(v: u128) -> u8 {
    ((v >> 62) & 0x3) as u8
}

/// The 54-bit timestamp of a raw 128-bit value, rejoined from its high
/// and low parts.
pub open spec fn spec_timestamp(v: u128) -> u64 {
    let high = (v >> 64) as u64;
    let time_high = (high >> 16) & 0xFFFF_FFFF_FFFFu64;
    let time_low = (high >> 6) & 0x3Fu64;
    (time_high << 6) | time_low
}

/// The 32-bit shard tag of a raw 128-bit value, rejoined from its high
/// and low parts.
pub open spec fn spec_shard(v: u128) -> u32 {
    let high = (v >> 64) as u64;
    let low = v as u64;
    let shard_high = high & 0x3Fu64;
    let shard_low = (low >> 36) & 0x3FF_FFFFu64;
    ((shard_high << 26) | shard_low) as u32
}

/// The 36-bit random field of a raw 128-bit value.
pub open spec fn spec_random(v: u128) -> u64 {
    (v & 0xF_FFFF_FFFFu128) as u64
}

/// The packed 128-bit value for the given fields, as the layout fixes it.
pub open spec fn pack_bits(micros: u64, shard_id: u32, rnd: u64) -> u128 {
    let shard64 = shard_id as u64;
    let time_high = (micros >> 6) & 0xFFFF_FFFF_FFFFu64;
    let time_low = micros & 0x3Fu64;
    let shard_high = (shard64 >> 26) & 0x3Fu64;
    let high64 = (time_high << 16) | (8u64 << 12) | (time_low << 6) | shard_high;
    let shard_low = shard64 & 0x3FF_FFFFu64;
    let low64 = (2u64 << 62) | (shard_low << 36) | rnd;
    ((high64 as u128) << 64) | (low64 as u128)
}

/// Packing then extracting returns every field unchanged, and the fixed
/// markers really read 8 and 2: the field round-trip law of the layout.
pub proof fn lemma_pack_fields(micros: u64, shard_id: u32, rnd: u64)
    by (bit_vector)
    requires
        micros <= 18_014_398_509_481_983u64,
        rnd <= 68_719_476_735u64,
    ensures
        spec_timestamp(pack_bits(micros, shard_id, rnd)) == micros,
        spec_shard(pack_bits(micros, shard_id, rnd)) == shard_id,
        spec_version(pack_bits(micros, shard_id, rnd)) == 8,
        spec_variant(pack_bits(micros, shard_id, rnd)) == 2,
        spec_random(pack_bits(micros, shard_id, rnd)) == rnd,
{
}

/// No raw value's timestamp field can exceed the 54-bit limit: the field
/// widths themselves bound it.
pub proof fn lemma_timestamp_bounded(v: u128)
    by (bit_vector)
    ensures
        spec_timestamp(v) <= 18_014_398_509_481_983u64,
{
}

/// Identifiers order chronologically: between two values carrying the
/// fixed markers, a strictly smaller timestamp means a strictly smaller
/// raw 128-bit magnitude, whatever their shard and random fields hold.
pub proof fn lemma_chronological_order(a: u128, b: u128)
    by (bit_vector)
    requires
        spec_version(a) == 8,
        spec_variant(a) == 2,
        spec_version(b) == 8,
        spec_variant(b) == 2,
        spec_timestamp(a) < spec_timestamp(b),
    ensures
        a < b,
{
}

/// The big-endian byte `i` of a raw 128-bit value.
pub open spec fn spec_be_byte(v: u128, i: int) -> u8
    recommends
        0 <= i < 16,
{
    if i == 0 {
        (v >> 120) as u8
    } else if i == 1 {
        (v >> 112) as u8
    } else if i == 2 {
        (v >> 104) as u8
    } else if i == 3 {
        (v >> 96) as u8
    } else if i == 4 {
        (v >> 88) as u8
    } else if i == 5 {
        (v >> 80) as u8
    } else if i == 6 {
        (v >> 72) as u8
    } else if i == 7 {
        (v >> 64) as u8
    } else if i == 8 {
        (v >> 56) as u8
    } else if i == 9 {
        (v >> 48) as u8
    } else if i == 10 {
        (v >> 40) as u8
    } else if i == 11 {
        (v >> 32) as u8
    } else if i == 12 {
        (v >> 24) as u8
    } else if i == 13 {
        (v >> 16) as u8
    } else if i == 14 {
        (v >> 8) as u8
    } else {
        v as u8
    }
}

/// The raw 128-bit value that 16 big-endian bytes name.
pub open spec fn be_bytes_to_u128(b: Seq<u8>) -> u128
    recommends
        b.len() == 16,
{
    ((b[0] as u128) << 120) | ((b[1] as u128) << 112) | ((b[2] as u128) << 104) | ((b[3] as u128)
        << 96) | ((b[4] as u128) << 88) | ((b[5] as u128) << 80) | ((b[6] as u128) << 72) | ((
    b[7] as u128) << 64) | ((b[8] as u128) << 56) | ((b[9] as u128) << 48) | ((b[10] as u128)
        << 40) | ((b[11] as u128) << 32) | ((b[12] as u128) << 24) | ((b[13] as u128) << 16) | ((
    b[14] as u128) << 8) | (b[15] as u128)
}

/// Splitting a value into big-endian bytes and rejoining them returns the
/// value: the byte-order stability law.
pub proof fn lemma_be_bytes_round_trip(v: u128)
    ensures
        be_bytes_to_u128(Seq::new(16, |i: int| spec_be_byte(v, i))) == v,
{
    let b = Seq::new(16, |i: int| spec_be_byte(v, i));
    assert(be_bytes_to_u128(b) == v) by {
        let x0 = b[0];
        let x1 = b[1];
        let x2 = b[2];
        let x3 = b[3];
        let x4 = b[4];
        let x5 = b[5];
        let x6 = b[6];
        let x7 = b[7];
        let x8 = b[8];
        let x9 = b[9];
        let x10 = b[10];
        let x11 = b[11];
        let x12 = b[12];
        let x13 = b[13];
        let x14 = b[14];
        let x15 = b[15];
        assert(((x0 as u128) << 120) | ((x1 as u128) << 112) | ((x2 as u128) << 104) | ((
        x3 as u128) << 96) | ((x4 as u128) << 88) | ((x5 as u128) << 80) | ((x6 as u128) << 72) | ((
        x7 as u128) << 64) | ((x8 as u128) << 56) | ((x9 as u128) << 48) | ((x10 as u128) << 40)
            | ((x11 as u128) << 32) | ((x12 as u128) << 24) | ((x13 as u128) << 16) | ((
        x14 as u128) << 8) | (x15 as u128) == v) by (bit_vector)
            requires
                x0 == (v >> 120) as u8,
                x1 == (v >> 112) as u8,
                x2 == (v >> 104) as u8,
                x3 == (v >> 96) as u8,
                x4 == (v >> 88) as u8,
                x5 == (v >> 80) as u8,
                x6 == (v >> 72) as u8,
                x7 == (v >> 64) as u8,
                x8 == (v >> 56) as u8,
                x9 == (v >> 48) as u8,
                x10 == (v >> 40) as u8,
                x11 == (v >> 32) as u8,
                x12 == (v >> 24) as u8,
                x13 == (v >> 16) as u8,
                x14 == (v >> 8) as u8,
                x15 == v as u8,
        ;
    }
}

/// The lowercase hexadecimal digit character for `v`.
pub open spec fn hex_char(v: int) -> char
    recommends
        0 <= v <= 15,
{
    if v == 0 {
        '0'
    } else if v == 1 {
        '1'
    } else if v == 2 {
        '2'
    } else if v == 3 {
        '3'
    } else if v == 4 {
        '4'
    } else if v == 5 {
        '5'
    } else if v == 6 {
        '6'
    } else if v == 7 {
        '7'
    } else if v == 8 {
        '8'
    } else if v == 9 {
        '9'
    } else if v == 10 {
        'a'
    } else if v == 11 {
        'b'
    } else if v == 12 {
        'c'
    } else if v == 13 {
        'd'
    } else if v == 14 {
        'e'
    } else {
        'f'
    }
}

/// The two hexadecimal digit characters of the byte `b`.
pub open spec fn hex_pair(b: u8) -> Seq<char> {
    seq![hex_char(b as int / 16), hex_char(b as int % 16)]
}

/// The canonical 36-character rendering of a raw 128-bit value: its 16
/// big-endian bytes in lowercase hexadecimal, hyphenated 8-4-4-4-12.
pub open spec fn spec_canonical(v: u128) -> Seq<char> {
    hex_pair(spec_be_byte(v, 0)) + hex_pair(spec_be_byte(v, 1)) + hex_pair(spec_be_byte(v, 2))
        + hex_pair(spec_be_byte(v, 3)) + seq!['-'] + hex_pair(spec_be_byte(v, 4)) + hex_pair(
        spec_be_byte(v, 5),
    ) + seq!['-'] + hex_pair(spec_be_byte(v, 6)) + hex_pair(spec_be_byte(v, 7)) + seq!['-']
        + hex_pair(spec_be_byte(v, 8)) + hex_pair(spec_be_byte(v, 9)) + seq!['-'] + hex_pair(
        spec_be_byte(v, 10),
    ) + hex_pair(spec_be_byte(v, 11)) + hex_pair(spec_be_byte(v, 12)) + hex_pair(
        spec_be_byte(v, 13),
    ) + hex_pair(spec_be_byte(v, 14)) + hex_pair(spec_be_byte(v, 15))
}

/// Appends the hexadecimal digit character for `v`.
fn push_hex_digit(out: &mut String, v: u8)
    requires
        v <= 15,
    ensures
        final(out)@ == old(out)@ + seq![hex_char(v as int)],
{
    proof {
        reveal_strlit("0");
        reveal_strlit("1");
        reveal_strlit("2");
        reveal_strlit("3");
        reveal_strlit("4");
        reveal_strlit("5");
        reveal_strlit("6");
        reveal_strlit("7");
        reveal_strlit("8");
        reveal_strlit("9");
        reveal_strlit("a");
        reveal_strlit("b");
        reveal_strlit("c");
        reveal_strlit("d");
        reveal_strlit("e");
        reveal_strlit("f");
    }
    if v == 0 {
        out.append("0");
    } else if v == 1 {
        out.append("1");
    } else if v == 2 {
        out.append("2");
    } else if v == 3 {
        out.append("3");
    } else if v == 4 {
        out.append("4");
    } else if v == 5 {
        out.append("5");
    } else if v == 6 {
        out.append("6");
    } else if v == 7 {
        out.append("7");
    } else if v == 8 {
        out.append("8");
    } else if v == 9 {
        out.append("9");
    } else if v == 10 {
        out.append("a");
    } else if v == 11 {
        out.append("b");
    } else if v == 12 {
        out.append("c");
    } else if v == 13 {
        out.append("d");
    } else if v == 14 {
        out.append("e");
    } else {
        out.append("f");
    }
    proof {
        assert(final(out)@ =~= old(out)@ + seq![hex_char(v as int)]);
    }
}

/// Appends the two hexadecimal digit characters of the byte `b`.
fn push_hex_byte(out: &mut String, b: u8)
    ensures
        final(out)@ == old(out)@ + hex_pair(b),
{
    proof {
        assert((b >> 4) == b / 16 && (b >> 4) <= 15 && (b & 0xF) == b % 16 && (b & 0xF) <= 15)
            by (bit_vector);
    }
    push_hex_digit(out, b >> 4);
    push_hex_digit(out, b & 0xF);
    proof {
        assert(final(out)@ =~= old(out)@ + hex_pair(b));
    }
}

/// A sortable, sharded 128-bit identifier under the fixed layout of this
/// crate, with version marker 8 and variant marker 2.
///
/// The derived ordering compares the raw 128-bit magnitude, so
/// identifiers sort chronologically by construction time.
#[derive(Clone, Copy, PartialEq, Eq, Hash, Debug, PartialOrd, Ord)]
pub struct MicroShardUUID(u128);

impl View for MicroShardUUID {
    type V = u128;

    closed spec fn view(&self) -> u128 {
        self.0
    }
}

/// Whether a raw 128-bit value carries both fixed markers of the layout.
pub open spec fn spec_marked(v: u128) -> bool {
    spec_version(v) == 8 && spec_variant(v) == 2
}

/// Confirms that a shard tag lies in the representable range. A native
/// 32-bit tag always does; the check stands for symmetry with narrower
/// future shard spaces.
pub(crate) fn validate_shard(shard_id: u32) -> (r: Result<(), MicroShardError>)
    ensures
        r == Ok::<(), MicroShardError>(()),
{
    if shard_id > MAX_SHARD_ID {
        return Err(MicroShardError::InvalidShardId(MAX_SHARD_ID));
    }
    Ok(())
}

impl MicroShardUUID {
    /// Every identifier value carries the fixed markers; both
    /// constructors establish this and no operation mutates a value.
    #[verifier::type_invariant]
    closed spec fn marked(self) -> bool {
        spec_marked(self.0)
    }

    /// Packs the given timestamp and shard tag with a fresh draw from the
    /// entropy source. Succeeds exactly when the timestamp fits the
    /// 54-bit budget; the packed fields then read back unchanged.
    pub fn build(micros: u64, shard_id: u32) -> (r: Result<Self, MicroShardError>)
        ensures
            micros > MAX_TIME_MICROS ==> r == Err::<Self, MicroShardError>(
                MicroShardError::TimeOverflow,
            ),
            micros <= MAX_TIME_MICROS ==> r is Ok,
            r is Ok ==> {
                &&& spec_timestamp(r->Ok_0@) == micros
                &&& spec_shard(r->Ok_0@) == shard_id
                &&& spec_marked(r->Ok_0@)
                &&& exists|rnd: u64| rnd <= MAX_RANDOM && r->Ok_0@ == #[trigger] pack_bits(
                    micros,
                    shard_id,
                    rnd,
                )
            },
    {
        if micros > MAX_TIME_MICROS {
            return Err(MicroShardError::TimeOverflow);
        }
        let mut rng = SimpleRng::new();
        let drawn = rng.next_u64();
        let rnd_val = drawn & MAX_RANDOM;
        proof {
            assert(drawn & 68_719_476_735u64 <= 68_719_476_735u64) by (bit_vector);
        }
        let shard64 = shard_id as u64;
        let time_high = (micros >> 6) & 0xFFFF_FFFF_FFFF;
        let time_low = micros & 0x3F;
        let shard_high = (shard64 >> 26) & 0x3F;
        let high64 = (time_high << 16) | (8u64 << 12) | (time_low << 6) | shard_high;
        let shard_low = shard64 & 0x3FF_FFFF;
        let low64 = (2u64 << 62) | (shard_low << 36) | rnd_val;
        let value = ((high64 as u128) << 64) | (low64 as u128);
        proof {
            assert(value == pack_bits(micros, shard_id, rnd_val));
            lemma_pack_fields(micros, shard_id, rnd_val);
        }
        Ok(MicroShardUUID(value))
    }

    /// A fresh identifier stamped with the wall clock. Fails with
    /// `SystemTimeError` when the clock stands before the epoch, and with
    /// `TimeOverflow` should the clock overrun the 54-bit budget.
    pub fn generate(shard_id: u32) -> (r: Result<Self, MicroShardError>)
        ensures
            r is Ok ==> {
                &&& spec_shard(r->Ok_0@) == shard_id
                &&& spec_marked(r->Ok_0@)
            },
            r is Err ==> (r->Err_0 == MicroShardError::SystemTimeError || r->Err_0
                == MicroShardError::TimeOverflow),
    {
        match validate_shard(shard_id) {
            Ok(()) => {},
            Err(e) => { return Err(e) },
        }
        match clock::now_unix_micros() {
            Some(micros) => Self::build(micros, shard_id),
            None => Err(MicroShardError::SystemTimeError),
        }
    }

    /// An identifier for an explicit timestamp. Succeeds exactly when the
    /// timestamp fits the 54-bit budget.
    pub fn from_micros(micros: u64, shard_id: u32) -> (r: Result<Self, MicroShardError>)
        ensures
            micros > MAX_TIME_MICROS ==> r == Err::<Self, MicroShardError>(
                MicroShardError::TimeOverflow,
            ),
            micros <= MAX_TIME_MICROS ==> r is Ok,
            r is Ok ==> {
                &&& spec_timestamp(r->Ok_0@) == micros
                &&& spec_shard(r->Ok_0@) == shard_id
                &&& spec_marked(r->Ok_0@)
            },
    {
        match validate_shard(shard_id) {
            Ok(()) => {},
            Err(e) => { return Err(e) },
        }
        Self::build(micros, shard_id)
    }

    /// An identifier for the moment an ISO-8601 timestamp names. Rejects
    /// text the parser rejects with `InvalidIsoFormat`, and a parsed
    /// moment beyond the 54-bit budget with `TimeOverflow`.
    pub fn from_iso(iso_str: &str, shard_id: u32) -> (r: Result<Self, MicroShardError>)
        ensures
            !iso::iso_accepted(iso_str@) ==> r == Err::<Self, MicroShardError>(
                MicroShardError::InvalidIsoFormat,
            ),
            iso::iso_accepted(iso_str@) && iso::iso_micros(iso_str@) > MAX_TIME_MICROS ==> r
                == Err::<Self, MicroShardError>(MicroShardError::TimeOverflow),
            iso::iso_accepted(iso_str@) && iso::iso_micros(iso_str@) <= MAX_TIME_MICROS ==> {
                &&& r is Ok
                &&& spec_timestamp(r->Ok_0@) == iso::iso_micros(iso_str@)
                &&& spec_shard(r->Ok_0@) == shard_id
                &&& spec_marked(r->Ok_0@)
            },
    {
        match validate_shard(shard_id) {
            Ok(()) => {},
            Err(e) => { return Err(e) },
        }
        let micros = match iso::parse_iso_strict(iso_str) {
            Ok(m) => m,
            Err(e) => { return Err(e) },
        };
        Self::build(micros, shard_id)
    }

    /// Imports a raw 128-bit value, insisting on both fixed markers: a
    /// wrong version is rejected first, then a wrong variant, each error
    /// carrying the observed field.
    pub fn from_u128(v: u128) -> (r: Result<Self, MicroShardError>)
        ensures
            spec_version(v) != 8 ==> r == Err::<Self, MicroShardError>(
                MicroShardError::InvalidVersion(spec_version(v)),
            ),
            spec_version(v) == 8 && spec_variant(v) != 2 ==> r == Err::<Self, MicroShardError>(
                MicroShardError::InvalidVariant(spec_variant(v)),
            ),
            spec_marked(v) ==> r is Ok && r->Ok_0@ == v,
    {
        let version = ((v >> 76) & 0xF) as u8;
        if version != 8 {
            return Err(MicroShardError::InvalidVersion(version));
        }
        let variant = ((v >> 62) & 0x3) as u8;
        if variant != 2 {
            return Err(MicroShardError::InvalidVariant(variant));
        }
        Ok(MicroShardUUID(v))
    }

    /// Imports 16 big-endian bytes, with the same marker checks as
    /// `from_u128`.
    pub fn from_bytes(bytes: [u8; 16]) -> (r: Result<Self, MicroShardError>)
        ensures
            ({
                let v = be_bytes_to_u128(bytes@);
                &&& (spec_version(v) != 8 ==> r == Err::<Self, MicroShardError>(
                    MicroShardError::InvalidVersion(spec_version(v)),
                ))
                &&& (spec_version(v) == 8 && spec_variant(v) != 2 ==> r == Err::<
                    Self,
                    MicroShardError,
                >(MicroShardError::InvalidVariant(spec_variant(v))))
                &&& (spec_marked(v) ==> r is Ok && r->Ok_0@ == v)
            }),
    {
        let v: u128 = ((bytes[0] as u128) << 120) | ((bytes[1] as u128) << 112) | ((
        bytes[2] as u128) << 104) | ((bytes[3] as u128) << 96) | ((bytes[4] as u128) << 88) | ((
        bytes[5] as u128) << 80) | ((bytes[6] as u128) << 72) | ((bytes[7] as u128) << 64) | ((
        bytes[8] as u128) << 56) | ((bytes[9] as u128) << 48) | ((bytes[10] as u128) << 40) | ((
        bytes[11] as u128) << 32) | ((bytes[12] as u128) << 24) | ((bytes[13] as u128) << 16) | ((
        bytes[14] as u128) << 8) | (bytes[15] as u128);
        Self::from_u128(v)
    }

    /// The raw 128-bit value. It always carries the fixed markers:
    /// both constructors establish them and no operation mutates an
    /// identifier.
    #[inline(always)]
    pub fn as_u128(&self) -> (r: u128)
        ensures
            r == self@,
            spec_marked(r),
    {
        proof {
            use_type_invariant(*self);
        }
        self.0
    }

    /// The 16 big-endian bytes of the identifier, independent of the
    /// host byte order; rejoined, they name the identifier again, with
    /// its markers intact, so `from_bytes` accepts them.
    pub fn as_bytes(&self) -> (r: [u8; 16])
        ensures
            r@.len() == 16,
            forall|i: int| 0 <= i < 16 ==> r@[i] == spec_be_byte(self@, i),
            be_bytes_to_u128(r@) == self@,
            spec_marked(be_bytes_to_u128(r@)),
    {
        proof {
            use_type_invariant(*self);
        }
        let v = self.0;
        let r: [u8; 16] = [
            (v >> 120) as u8,
            (v >> 112) as u8,
            (v >> 104) as u8,
            (v >> 96) as u8,
            (v >> 88) as u8,
            (v >> 80) as u8,
            (v >> 72) as u8,
            (v >> 64) as u8,
            (v >> 56) as u8,
            (v >> 48) as u8,
            (v >> 40) as u8,
            (v >> 32) as u8,
            (v >> 24) as u8,
            (v >> 16) as u8,
            (v >> 8) as u8,
            v as u8,
        ];
        proof {
            assert(r@ =~= Seq::new(16, |i: int| spec_be_byte(self@, i)));
            lemma_be_bytes_round_trip(self@);
        }
        r
    }

    /// The embedded 32-bit shard tag.
    pub fn shard_id(&self) -> (r: u32)
        ensures
            r == spec_shard(self@),
    {
        let val = self.0;
        let high = (val >> 64) as u64;
        let low = val as u64;
        let shard_high = high & 0x3F;
        let shard_low = (low >> 36) & 0x3FFFFFF;
        ((shard_high << 26) | shard_low) as u32
    }

    /// The embedded timestamp, microseconds since the Unix epoch. The
    /// field widths keep it within the 54-bit budget.
    pub fn timestamp_micros(&self) -> (r: u64)
        ensures
            r == spec_timestamp(self@),
            r <= MAX_TIME_MICROS,
    {
        let val = self.0;
        let high = (val >> 64) as u64;
        let time_high = (high >> 16) & 0xFFFFFFFFFFFF;
        let time_low = (high >> 6) & 0x3F;
        proof {
            lemma_timestamp_bounded(self@);
        }
        (time_high << 6) | time_low
    }

    /// The canonical textual rendering: 32 lowercase hexadecimal digits
    /// of the big-endian bytes, hyphenated 8-4-4-4-12, 36 characters in
    /// all, independent of the host byte order.
    pub fn to_canonical_string(&self) -> (r: String)
        ensures
            r@ == spec_canonical(self@),
            r@.len() == 36,
    {
        let b = self.as_bytes();
        let mut out = String::new();
        push_hex_byte(&mut out, b[0]);
        push_hex_byte(&mut out, b[1]);
        push_hex_byte(&mut out, b[2]);
        push_hex_byte(&mut out, b[3]);
        out.append("-");
        push_hex_byte(&mut out, b[4]);
        push_hex_byte(&mut out, b[5]);
        out.append("-");
        push_hex_byte(&mut out, b[6]);
        push_hex_byte(&mut out, b[7]);
        out.append("-");
        push_hex_byte(&mut out, b[8]);
        push_hex_byte(&mut out, b[9]);
        out.append("-");
        push_hex_byte(&mut out, b[10]);
        push_hex_byte(&mut out, b[11]);
        push_hex_byte(&mut out, b[12]);
        push_hex_byte(&mut out, b[13]);
        push_hex_byte(&mut out, b[14]);
        push_hex_byte(&mut out, b[15]);
        proof {
            reveal_strlit("-");
            assert(out@ =~= spec_canonical(self@));
        }
        out
    }

    /// The embedded timestamp rendered as the canonical 27-character
    /// ISO-8601 text, always with six fraction digits. The parser maps
    /// the text back to the same timestamp, and every group renders the
    /// calendar conversion of the timestamp: the clock groups carry the
    /// second of day (never a seconds group of 60), the date groups name
    /// the epoch day, and the fraction carries the sub-second
    /// microseconds — which pins the text uniquely.
    pub fn to_iso_string(&self) -> (r: String)
        ensures
            iso::iso_accepted(r@),
            iso::iso_micros(r@) == spec_timestamp(self@),
            r@.len() == 27,
            iso::iso_second(r@) <= 59,
            iso::iso_hour(r@) * 3600 + iso::iso_minute(r@) * 60 + iso::iso_second(r@) == (
            spec_timestamp(self@) as int / 1_000_000) % 86400,
            calendar::epoch_days_of_date(iso::iso_year(r@), iso::iso_month(r@), iso::iso_day(r@))
                == (spec_timestamp(self@) as int / 1_000_000) / 86400,
            iso::iso_fraction(r@) == spec_timestamp(self@) as int % 1_000_000,
            iso::is_canonical_iso(r@, spec_timestamp(self@) as int),
            forall|s: Seq<char>|
                iso::is_canonical_iso(s, spec_timestamp(self@) as int) ==> s == r@,
    {
        let total_micros = self.timestamp_micros();
        proof {
            assert(MAX_TIME_MICROS <= calendar::MAX_UNIX_SECS * 1_000_000 + 999_999);
        }
        iso::format_iso(total_micros)
    }
}

} // verus!
