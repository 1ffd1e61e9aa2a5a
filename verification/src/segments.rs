//! The order of WAL segment names: fixed-width upper-case hexadecimal
//! compares as the numbers it writes, so comparing the log/segment parts of
//! two segment names compares their segment numbers.

use vstd::prelude::*;
use vstd::utf8::*;
use crate::text::{digits, hex8, hex_digit_char, hex_upper, pad_left};
use crate::archive::{archive_threshold_text, law_kept_backup_wal_kept};
use crate::backups::BaseBackup;
use crate::wal::{bytes_lt, removable_before, wal_segment_name};

verus! {

/// `16^k`.
pub open spec fn p16(k: nat) -> nat
    decreases k,
{
    if k == 0 {
        1
    } else {
        16 * p16((k - 1) as nat)
    }
}

/// The last `k` hexadecimal digits of `n`, upper case, leading zeros kept.
pub open spec fn fixed_hex(n: nat, k: nat) -> Seq<char>
    decreases k,
{
    if k == 0 {
        seq![]
    } else {
        fixed_hex(n / 16, (k - 1) as nat).push(hex_digit_char((n % 16) as int))
    }
}

/// The bytes of a sequence of ASCII characters.
pub open spec fn ascii_bytes(s: Seq<char>) -> Seq<u8> {
    Seq::new(s.len(), |i: int| s[i] as u8)
}

proof fn lemma_fixed_hex_len(n: nat, k: nat)
    ensures
        fixed_hex(n, k).len() == k,
    decreases k,
{
    if k > 0 {
        lemma_fixed_hex_len(n / 16, (k - 1) as nat);
    }
}

proof fn lemma_fixed_hex_zero(k: nat)
    ensures
        fixed_hex(0, k) == Seq::new(k, |i: int| '0'),
    decreases k,
{
    if k > 0 {
        lemma_fixed_hex_zero((k - 1) as nat);
        assert(fixed_hex(0, k) =~= Seq::new(k, |i: int| '0'));
    }
}

proof fn lemma_p16_positive(k: nat)
    ensures
        p16(k) >= 1,
    decreases k,
{
    if k > 0 {
        lemma_p16_positive((k - 1) as nat);
    }
}

/// Rendering `n` without leading zeros and padding it with zeros to `k`
/// digits gives its last `k` digits, when it has at most `k`.
proof fn lemma_padded_digits(n: nat, k: nat)
    requires
        k >= 1,
        n < p16(k),
    ensures
        digits(n, 16).len() <= k,
        pad_left(digits(n, 16), k, '0') == fixed_hex(n, k),
    decreases k,
{
    lemma_fixed_hex_len(n, k);
    if n < 16 {
        assert(n / 16 == 0);
        assert(n % 16 == n);
        lemma_fixed_hex_zero((k - 1) as nat);
        assert(pad_left(digits(n, 16), k, '0') =~= fixed_hex(n, k));
    } else {
        lemma_p16_positive((k - 1) as nat);
        assert(k >= 2) by {
            if k == 1 {
                assert(p16(1) == 16 * p16(0));
            }
        }
        assert(n / 16 < p16((k - 1) as nat)) by (nonlinear_arith)
            requires
                n < 16 * p16((k - 1) as nat),
        ;
        lemma_padded_digits(n / 16, (k - 1) as nat);
        let d = digits(n / 16, 16);
        assert(digits(n, 16) == d.push(hex_digit_char((n % 16) as int)));
        assert(pad_left(d.push(hex_digit_char((n % 16) as int)), k, '0') =~= pad_left(d, (k - 1) as nat, '0').push(
            hex_digit_char((n % 16) as int),
        ));
    }
}

/// Below `2^32`, the eight-digit rendering is the last eight digits.
pub proof fn lemma_hex8_fixed(n: nat)
    requires
        n < 0x1_0000_0000,
    ensures
        hex8(n) == fixed_hex(n, 8),
        hex8(n).len() == 8,
{
    assert(p16(8) == 0x1_0000_0000) by {
        reveal_with_fuel(p16, 9);
    }
    lemma_padded_digits(n, 8);
    lemma_fixed_hex_len(n, 8);
}

/// A digit's character as a byte: `0`-`9` then `A`-`F`.
proof fn lemma_digit_byte(d: int)
    requires
        0 <= d < 16,
    ensures
        hex_digit_char(d) as u8 == (if d < 10 { 48 + d } else { 55 + d }),
{
}

/// Comparing two byte strings that extend equal-length prefixes: the
/// prefixes decide unless they are equal.
proof fn lemma_bytes_lt_append(x1: Seq<u8>, y1: Seq<u8>, x2: Seq<u8>, y2: Seq<u8>)
    requires
        x1.len() == x2.len(),
    ensures
        bytes_lt(x1 + y1, x2 + y2) == (bytes_lt(x1, x2) || (x1 == x2 && bytes_lt(y1, y2))),
    decreases x1.len(),
{
    if x1.len() == 0 {
        assert(x1 + y1 =~= y1);
        assert(x2 + y2 =~= y2);
        assert(x1 =~= x2);
    } else {
        assert((x1 + y1)[0] == x1[0]);
        assert((x2 + y2)[0] == x2[0]);
        if x1[0] == x2[0] {
            assert((x1 + y1).drop_first() =~= x1.drop_first() + y1);
            assert((x2 + y2).drop_first() =~= x2.drop_first() + y2);
            lemma_bytes_lt_append(x1.drop_first(), y1, x2.drop_first(), y2);
            if x1.drop_first() == x2.drop_first() {
                assert forall|i: int| 0 <= i < x1.len() implies x1[i] == x2[i] by {
                    if i > 0 {
                        assert(x1[i] == x1.drop_first()[i - 1]);
                        assert(x2[i] == x2.drop_first()[i - 1]);
                    }
                }
                assert(x1 =~= x2);
            }
            if x1 == x2 {
                assert(x1.drop_first() == x2.drop_first());
            }
        } else {
            assert(x1 != x2);
        }
    }
}

proof fn lemma_ascii_bytes_concat(a: Seq<char>, b: Seq<char>)
    ensures
        ascii_bytes(a + b) == ascii_bytes(a) + ascii_bytes(b),
{
    assert(ascii_bytes(a + b) =~= ascii_bytes(a) + ascii_bytes(b));
}

/// Fixed-width hexadecimal orders as the numbers it writes.
proof fn lemma_fixed_hex_lt(a: nat, b: nat, k: nat)
    requires
        a < b < p16(k),
    ensures
        bytes_lt(ascii_bytes(fixed_hex(a, k)), ascii_bytes(fixed_hex(b, k))),
    decreases k,
{
    if k == 0 {
        assert(p16(0) == 1);
    } else {
        let km = (k - 1) as nat;
        assert(b / 16 < p16(km)) by (nonlinear_arith)
            requires
                b < 16 * p16(km),
        ;
        assert(a / 16 <= b / 16) by (nonlinear_arith)
            requires
                a < b,
        ;
        let ca = hex_digit_char((a % 16) as int);
        let cb = hex_digit_char((b % 16) as int);
        let xa = fixed_hex(a / 16, km);
        let xb = fixed_hex(b / 16, km);
        lemma_fixed_hex_len(a / 16, km);
        lemma_fixed_hex_len(b / 16, km);
        lemma_ascii_bytes_concat(xa, seq![ca]);
        lemma_ascii_bytes_concat(xb, seq![cb]);
        assert(fixed_hex(a, k) == xa + seq![ca]);
        assert(fixed_hex(b, k) == xb + seq![cb]);
        lemma_bytes_lt_append(ascii_bytes(xa), ascii_bytes(seq![ca]), ascii_bytes(xb), ascii_bytes(seq![cb]));
        if a / 16 < b / 16 {
            lemma_fixed_hex_lt(a / 16, b / 16, km);
        } else {
            assert(a % 16 < b % 16) by (nonlinear_arith)
                requires
                    a < b,
                    a / 16 == b / 16,
            ;
            lemma_digit_byte((a % 16) as int);
            lemma_digit_byte((b % 16) as int);
            assert(ascii_bytes(seq![ca]) =~= seq![ca as u8]);
            assert(ascii_bytes(seq![cb]) =~= seq![cb as u8]);
            assert(bytes_lt(seq![ca as u8], seq![cb as u8]));
        }
    }
}

/// The log/segment part of a segment name: its bytes 8 to 24, the name
/// without the timeline.
pub open spec fn log_segment_part(timeline: u32, lsn: u64, wal_segment_size: u64) -> Seq<u8> {
    encode_utf8(wal_segment_name(timeline, lsn, wal_segment_size)).subrange(8, 24)
}

/// The segment number of `lsn`: which segment of `wal_segment_size` bytes
/// holds it.
pub open spec fn segment_number(lsn: u64, wal_segment_size: u64) -> nat {
    (lsn as nat) / (wal_segment_size as nat)
}

/// The log/segment part of a segment name is the log id and the segment
/// within it, each as eight hexadecimal digits.
proof fn lemma_log_segment_part(timeline: u32, lsn: u64, wal_segment_size: u64)
    requires
        0 < wal_segment_size <= 0x1_0000_0000,
        0x1_0000_0000nat % (wal_segment_size as nat) == 0,
    ensures
        ({
            let spi = 0x1_0000_0000nat / (wal_segment_size as nat);
            let segno = segment_number(lsn, wal_segment_size);
            &&& 1 <= spi <= 0x1_0000_0000
            &&& segno / spi < 0x1_0000_0000
            &&& segno % spi < spi
            &&& log_segment_part(timeline, lsn, wal_segment_size) == ascii_bytes(fixed_hex(segno / spi, 8))
                + ascii_bytes(fixed_hex(segno % spi, 8))
        }),
{
    let w = wal_segment_size as nat;
    let spi = 0x1_0000_0000nat / w;
    let segno = segment_number(lsn, wal_segment_size);
    let x = lsn as nat;
    vstd::arithmetic::div_mod::lemma_fundamental_div_mod(0x1_0000_0000int, w as int);
    assert(spi * w == 0x1_0000_0000);
    assert(1 <= spi <= 0x1_0000_0000) by (nonlinear_arith)
        requires
            spi * w == 0x1_0000_0000,
            1 <= w <= 0x1_0000_0000,
            spi >= 0,
    ;
    vstd::arithmetic::div_mod::lemma_fundamental_div_mod(x as int, w as int);
    vstd::arithmetic::div_mod::lemma_fundamental_div_mod(segno as int, spi as int);
    let hi = segno / spi;
    let lo = segno % spi;
    assert(lo < spi) by (nonlinear_arith)
        requires
            spi >= 1,
            lo == segno % spi,
    ;
    assert(hi < 0x1_0000_0000) by (nonlinear_arith)
        requires
            x < 0x1_0000_0000_0000_0000,
            x == w * segno + x % w,
            x % w >= 0,
            segno == spi * hi + lo,
            lo >= 0,
            spi * w == 0x1_0000_0000,
            hi >= 0,
    ;
    lemma_hex8_fixed(timeline as nat);
    lemma_hex8_fixed(hi);
    lemma_hex8_fixed(lo);
    let name = wal_segment_name(timeline, lsn, wal_segment_size);
    assert(name == hex8(timeline as nat) + hex8(hi) + hex8(lo));
    crate::archive::lemma_segment_name_ascii(timeline, lsn, wal_segment_size);
    is_ascii_chars_encode_utf8(name);
    assert(encode_utf8(name) =~= ascii_bytes(name));
    assert(ascii_bytes(name).subrange(8, 24) =~= ascii_bytes(fixed_hex(hi, 8)) + ascii_bytes(fixed_hex(lo, 8)));
}

/// Segment names compare as segment numbers: for segment sizes that divide
/// the 4 GiB log id space, and whatever the timelines, the log/segment part
/// of the name of the segment holding `a` sorts before that of `b` exactly
/// when `a` lies in an earlier segment, and the parts are equal exactly when
/// both lie in one segment.
pub proof fn law_segment_names_order_as_lsns(t1: u32, a: u64, t2: u32, b: u64, wal_segment_size: u64)
    requires
        0 < wal_segment_size <= 0x1_0000_0000,
        0x1_0000_0000nat % (wal_segment_size as nat) == 0,
    ensures
        bytes_lt(log_segment_part(t1, a, wal_segment_size), log_segment_part(t2, b, wal_segment_size))
            <==> segment_number(a, wal_segment_size) < segment_number(b, wal_segment_size),
        (log_segment_part(t1, a, wal_segment_size) == log_segment_part(t2, b, wal_segment_size))
            <==> segment_number(a, wal_segment_size) == segment_number(b, wal_segment_size),
{
    lemma_log_segment_part(t1, a, wal_segment_size);
    lemma_log_segment_part(t2, b, wal_segment_size);
    let spi = 0x1_0000_0000nat / (wal_segment_size as nat);
    let sa = segment_number(a, wal_segment_size);
    let sb = segment_number(b, wal_segment_size);
    lemma_parts_order(sa, sb, spi);
    lemma_parts_order(sb, sa, spi);
    let pa = log_segment_part(t1, a, wal_segment_size);
    let pb = log_segment_part(t2, b, wal_segment_size);
    crate::sorting::lemma_bytes_lt_asymmetric(pa, pb);
    crate::sorting::lemma_bytes_lt_asymmetric(pa, pa);
    if sa == sb {
        assert(pa == pb);
    }
    if pa == pb {
        assert(!bytes_lt(pa, pb));
        assert(!(sa < sb));
        assert(!(sb < sa)) by {
            if sb < sa {
                assert(bytes_lt(pb, pa));
            }
        }
    }
}

/// Where one segment number is below another, the bytes of its log id and
/// segment digits sort first.
proof fn lemma_parts_order(sa: nat, sb: nat, spi: nat)
    requires
        1 <= spi <= 0x1_0000_0000,
        sa / spi < 0x1_0000_0000,
        sb / spi < 0x1_0000_0000,
    ensures
        sa < sb ==> bytes_lt(
            ascii_bytes(fixed_hex(sa / spi, 8)) + ascii_bytes(fixed_hex(sa % spi, 8)),
            ascii_bytes(fixed_hex(sb / spi, 8)) + ascii_bytes(fixed_hex(sb % spi, 8)),
        ),
{
    if sa < sb {
        let ha = sa / spi;
        let hb = sb / spi;
        let la = sa % spi;
        let lb = sb % spi;
        vstd::arithmetic::div_mod::lemma_fundamental_div_mod(sa as int, spi as int);
        vstd::arithmetic::div_mod::lemma_fundamental_div_mod(sb as int, spi as int);
        assert(la < spi && lb < spi) by (nonlinear_arith)
            requires
                spi >= 1,
                la == sa % spi,
                lb == sb % spi,
        ;
        assert(ha <= hb) by {
            if ha > hb {
                assert(spi * ha >= spi * (hb + 1)) by (nonlinear_arith)
                    requires
                        ha >= hb + 1,
                        spi >= 1,
                ;
                assert(spi * (hb + 1) == spi * hb + spi) by (nonlinear_arith);
            }
        }
        assert(p16(8) == 0x1_0000_0000) by {
            reveal_with_fuel(p16, 9);
        }
        lemma_fixed_hex_len(ha, 8);
        lemma_fixed_hex_len(hb, 8);
        let xa = ascii_bytes(fixed_hex(ha, 8));
        let xb = ascii_bytes(fixed_hex(hb, 8));
        lemma_bytes_lt_append(xa, ascii_bytes(fixed_hex(la, 8)), xb, ascii_bytes(fixed_hex(lb, 8)));
        if ha < hb {
            lemma_fixed_hex_lt(ha, hb, 8);
        } else {
            assert(la < lb) by (nonlinear_arith)
                requires
                    sa == spi * ha + la,
                    sb == spi * hb + lb,
                    ha == hb,
                    sa < sb,
            ;
            assert(lb < p16(8));
            lemma_fixed_hex_lt(la, lb, 8);
        }
    }
}

/// Compaction keeps the WAL that the kept backups need: once the archive
/// threshold is chosen among the kept backups' start segments (and the
/// pending segment), the segment file holding any LSN at or after a kept
/// backup's start LSN, on any timeline, is not removable, for segment sizes
/// that divide the 4 GiB log id space.
pub proof fn law_wal_after_kept_backup_kept(
    kept: Seq<BaseBackup>,
    wal_segment_size: u64,
    pending: Option<Seq<char>>,
    i: int,
    timeline: u32,
    lsn: u64,
)
    requires
        0 < wal_segment_size <= 0x1_0000_0000,
        0x1_0000_0000nat % (wal_segment_size as nat) == 0,
        0 <= i < kept.len(),
        pending matches Some(p) ==> encode_utf8(p).len() >= 24,
        kept[i].start_lsn <= lsn,
    ensures
        archive_threshold_text(kept, wal_segment_size, pending) is Some,
        !removable_before(
            encode_utf8(wal_segment_name(timeline, lsn, wal_segment_size)),
            encode_utf8(archive_threshold_text(kept, wal_segment_size, pending)->0),
        ),
{
    let b = kept[i];
    vstd::arithmetic::div_mod::lemma_div_is_ordered(b.start_lsn as int, lsn as int, wal_segment_size as int);
    law_segment_names_order_as_lsns(timeline, lsn, b.timeline, b.start_lsn, wal_segment_size);
    let name = encode_utf8(wal_segment_name(timeline, lsn, wal_segment_size));
    crate::archive::lemma_segment_name_ascii(timeline, lsn, wal_segment_size);
    is_ascii_chars_encode_utf8(wal_segment_name(timeline, lsn, wal_segment_size));
    law_kept_backup_wal_kept(kept, wal_segment_size, pending, i, name);
}

} // verus!
