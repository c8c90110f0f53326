//! The names of layer files. A name spells the rectangle of the layer in
//! hexadecimal digits, and nothing else identifies the layer, on local disk
//! or in remote storage.
//!
//! A delta layer is called `KEY-KEY__LSN-LSN`, by the bounds of its key
//! range and of its LSN range; an image layer `KEY-KEY__LSN`, by the bounds
//! of its key range and its LSN. Each number takes sixteen digits, the
//! letters among them in upper case.

use crate::layer_desc::DeltaFileName;
use crate::layer_desc::ImageFileName;
use crate::layer_desc::LayerFileName;
use crate::load::pow16;
use crate::lsn::Key;
use crate::lsn::Lsn;
use vstd::prelude::*;

verus! {

/// The hexadecimal digit for `d`, a letter in upper case.
pub open spec fn upper_digit(d: int) -> u8 {
    if d < 10 {
        (48 + d) as u8
    } else {
        (55 + d) as u8
    }
}

/// The value of a hexadecimal digit, a letter counting only in upper case.
pub open spec fn upper_value(c: u8) -> Option<int> {
    if 48 <= c <= 57 {
        Some(c - 48)
    } else if 65 <= c <= 70 {
        Some(c - 55)
    } else {
        None
    }
}

/// The last `n` hexadecimal digits of `v`, the most significant first.
pub open spec fn hex_digits(v: int, n: nat) -> Seq<u8>
    decreases n,
{
    if n == 0 {
        Seq::empty()
    } else {
        hex_digits(v / 16, (n - 1) as nat).push(upper_digit(v % 16))
    }
}

/// The number that the digits `s` spell, the first digit being the most
/// significant; `None` if `s` holds anything but digits and upper-case
/// letters up to `F`.
pub open spec fn upper_hex_int(s: Seq<u8>) -> Option<int>
    decreases s.len(),
{
    if s.len() == 0 {
        Some(0)
    } else {
        match (upper_hex_int(s.drop_last()), upper_value(s.last())) {
            (Some(v), Some(d)) => Some(v * 16 + d),
            _ => None,
        }
    }
}

/// The digits of a number spell the number.
pub proof fn lemma_digits_spell(v: int, n: nat)
    requires
        0 <= v < pow16(n),
    ensures
        hex_digits(v, n).len() == n,
        upper_hex_int(hex_digits(v, n)) == Some(v),
    decreases n,
{
    if n > 0 {
        let s = hex_digits(v, n);
        let init = hex_digits(v / 16, (n - 1) as nat);
        assert(pow16(n) == 16 * pow16((n - 1) as nat));
        lemma_digits_spell(v / 16, (n - 1) as nat);
        assert(s.drop_last() =~= init);
        assert(s.last() == upper_digit(v % 16));
    }
}

/// What spells a number is the digits of that number.
pub proof fn lemma_spelling_is_digits(s: Seq<u8>)
    requires
        upper_hex_int(s) is Some,
    ensures
        0 <= upper_hex_int(s).unwrap() < pow16(s.len()),
        hex_digits(upper_hex_int(s).unwrap(), s.len()) == s,
    decreases s.len(),
{
    if s.len() > 0 {
        lemma_spelling_is_digits(s.drop_last());
        let v = upper_hex_int(s).unwrap();
        let init_v = upper_hex_int(s.drop_last()).unwrap();
        let d = upper_value(s.last()).unwrap();
        assert(v == init_v * 16 + d);
        assert(v / 16 == init_v && v % 16 == d);
        assert(pow16(s.len()) == 16 * pow16((s.len() - 1) as nat));
        assert(hex_digits(v, s.len()) =~= s);
    } else {
        assert(hex_digits(0, 0) =~= s);
    }
}

/// Appends the last `n` hexadecimal digits of `v` to `out`.
fn push_hex(out: &mut Vec<u8>, v: u64, n: usize)
    ensures
        final(out)@ == old(out)@ + hex_digits(v as int, n as nat),
    decreases n,
{
    if n == 0 {
        assert(out@ + hex_digits(v as int, 0) =~= out@);
    } else {
        push_hex(out, v / 16, n - 1);
        let d = (v % 16) as u8;
        let c = if d < 10 {
            48 + d
        } else {
            55 + d
        };
        out.push(c);
        assert(out@ =~= old(out)@ + hex_digits(v as int, n as nat));
    }
}

/// Reads the number that the sixteen bytes of `s` from `start` on spell.
fn parse_hex(s: &[u8], start: usize) -> (r: Option<u64>)
    requires
        start + 16 <= s@.len(),
    ensures
        match upper_hex_int(s@.subrange(start as int, start + 16)) {
            Some(v) => r == Some(v as u64) && 0 <= v <= u64::MAX,
            None => r is None,
        },
{
    let ghost field = s@.subrange(start as int, start + 16);
    let len = s.len();
    let mut acc: u64 = 0;
    let mut i: usize = 0;
    proof {
        assert(field.subrange(0, 0) =~= Seq::<u8>::empty());
    }
    while i < 16
        invariant
            0 <= i <= 16,
            start + 16 <= s@.len(),
            s@.len() == len,
            field == s@.subrange(start as int, start + 16),
            upper_hex_int(field.subrange(0, i as int)) == Some(acc as int),
        decreases 16 - i,
    {
        let c = s[start + i];
        let ghost head = field.subrange(0, i as int);
        let ghost next = field.subrange(0, i + 1);
        proof {
            assert(next.drop_last() =~= head);
            assert(next.last() == c);
        }
        let d: u8 = if 48 <= c && c <= 57 {
            c - 48
        } else if 65 <= c && c <= 70 {
            c - 55
        } else {
            proof {
                lemma_upper_prefix_none(field, i + 1);
            }
            return None;
        };
        proof {
            lemma_spelling_is_digits(head);
            crate::load::lemma_pow16(i as nat, 16);
            assert(pow16((i + 1) as nat) == 16 * pow16(i as nat));
            assert(acc * 16 + d < pow16((i + 1) as nat)) by (nonlinear_arith)
                requires
                    0 <= acc < pow16(i as nat),
                    0 <= d < 16,
                    pow16((i + 1) as nat) == 16 * pow16(i as nat),
            ;
            crate::load::lemma_pow16((i + 1) as nat, 16);
        }
        acc = acc * 16 + d as u64;
        i += 1;
    }
    proof {
        assert(field.subrange(0, 16) =~= field);
        lemma_spelling_is_digits(field);
        crate::load::lemma_pow16(16, 16);
    }
    Some(acc)
}

/// Bytes that spell no number up to some place spell none as a whole.
proof fn lemma_upper_prefix_none(s: Seq<u8>, n: int)
    requires
        0 <= n <= s.len(),
        upper_hex_int(s.subrange(0, n)) is None,
    ensures
        upper_hex_int(s) is None,
    decreases s.len() - n,
{
    if n < s.len() {
        assert(s.subrange(0, n + 1).drop_last() =~= s.subrange(0, n));
        lemma_upper_prefix_none(s, n + 1);
    } else {
        assert(s.subrange(0, n) =~= s);
    }
}

/// The byte `-`.
pub const DASH: u8 = 45;

/// The byte `_`.
pub const UNDERSCORE: u8 = 95;

/// The name of an image layer file: `KEY-KEY__LSN`.
pub open spec fn image_name(key_start: u64, key_end: u64, lsn: u64) -> Seq<u8> {
    hex_digits(key_start as int, 16) + seq![DASH] + hex_digits(key_end as int, 16) + seq![
        UNDERSCORE,
        UNDERSCORE,
    ] + hex_digits(lsn as int, 16)
}

/// The name of a delta layer file: `KEY-KEY__LSN-LSN`.
pub open spec fn delta_name(key_start: u64, key_end: u64, lsn_start: u64, lsn_end: u64) -> Seq<u8> {
    image_name(key_start, key_end, lsn_start) + seq![DASH] + hex_digits(lsn_end as int, 16)
}

/// The name of a layer file.
pub open spec fn file_name_of(name: LayerFileName) -> Seq<u8> {
    match name {
        LayerFileName::Image(i) => image_name(i.key_range.start.0, i.key_range.end.0, i.lsn.0),
        LayerFileName::Delta(d) => delta_name(
            d.key_range.start.0,
            d.key_range.end.0,
            d.lsn_range.start.0,
            d.lsn_range.end.0,
        ),
    }
}

/// The layer file that `s` names, if it names one.
pub open spec fn named_layer(s: Seq<u8>) -> Option<LayerFileName> {
    if s.len() != 51 && s.len() != 68 {
        None
    } else if s[16] != DASH || s[33] != UNDERSCORE || s[34] != UNDERSCORE {
        None
    } else {
        match (
            upper_hex_int(s.subrange(0, 16)),
            upper_hex_int(s.subrange(17, 33)),
            upper_hex_int(s.subrange(35, 51)),
        ) {
            (Some(ks), Some(ke), Some(l)) => if s.len() == 51 {
                Some(
                    LayerFileName::Image(
                        ImageFileName {
                            key_range: Key(ks as u64)..Key(ke as u64),
                            lsn: Lsn(l as u64),
                        },
                    ),
                )
            } else if s[51] != DASH {
                None
            } else {
                match upper_hex_int(s.subrange(52, 68)) {
                    Some(le) => Some(
                        LayerFileName::Delta(
                            DeltaFileName {
                                key_range: Key(ks as u64)..Key(ke as u64),
                                lsn_range: Lsn(l as u64)..Lsn(le as u64),
                            },
                        ),
                    ),
                    None => None,
                }
            },
            _ => None,
        }
    }
}

impl LayerFileName {
    /// The name of the file, as bytes.
    pub fn file_name(&self) -> (r: Vec<u8>)
        ensures
            r@ == file_name_of(*self),
    {
        let mut out: Vec<u8> = Vec::new();
        match self {
            LayerFileName::Image(i) => {
                push_hex(&mut out, i.key_range.start.0, 16);
                out.push(DASH);
                push_hex(&mut out, i.key_range.end.0, 16);
                out.push(UNDERSCORE);
                out.push(UNDERSCORE);
                push_hex(&mut out, i.lsn.0, 16);
                proof {
                    assert(out@ =~= file_name_of(*self));
                }
            },
            LayerFileName::Delta(d) => {
                push_hex(&mut out, d.key_range.start.0, 16);
                out.push(DASH);
                push_hex(&mut out, d.key_range.end.0, 16);
                out.push(UNDERSCORE);
                out.push(UNDERSCORE);
                push_hex(&mut out, d.lsn_range.start.0, 16);
                out.push(DASH);
                push_hex(&mut out, d.lsn_range.end.0, 16);
                proof {
                    assert(out@ =~= file_name_of(*self));
                }
            },
        }
        out
    }

    /// Reads the name of a layer file.
    pub fn parse(name: &[u8]) -> (r: Option<LayerFileName>)
        ensures
            r == named_layer(name@),
    {
        if name.len() != 51 && name.len() != 68 {
            return None;
        }
        if name[16] != DASH || name[33] != UNDERSCORE || name[34] != UNDERSCORE {
            return None;
        }
        let key_start = parse_hex(name, 0);
        let key_end = parse_hex(name, 17);
        let lsn = parse_hex(name, 35);
        match (key_start, key_end, lsn) {
            (Some(ks), Some(ke), Some(l)) => {
                if name.len() == 51 {
                    Some(LayerFileName::Image(ImageFileName { key_range: Key(ks)..Key(ke), lsn: Lsn(l) }))
                } else if name[51] != DASH {
                    None
                } else {
                    match parse_hex(name, 52) {
                        Some(le) => Some(
                            LayerFileName::Delta(
                                DeltaFileName {
                                    key_range: Key(ks)..Key(ke),
                                    lsn_range: Lsn(l)..Lsn(le),
                                },
                            ),
                        ),
                        None => None,
                    }
                }
            },
            _ => None,
        }
    }
}

/// A name that is written and read again is the same name.
pub proof fn lemma_name_round_trips(name: LayerFileName)
    ensures
        named_layer(file_name_of(name)) == Some(name),
{
    crate::load::lemma_pow16(16, 16);
    match name {
        LayerFileName::Image(i) => {
            let s = file_name_of(name);
            let (ks, ke, l) = (i.key_range.start.0, i.key_range.end.0, i.lsn.0);
            lemma_digits_spell(ks as int, 16);
            lemma_digits_spell(ke as int, 16);
            lemma_digits_spell(l as int, 16);
            assert(s.len() == 51);
            assert(s.subrange(0, 16) =~= hex_digits(ks as int, 16));
            assert(s.subrange(17, 33) =~= hex_digits(ke as int, 16));
            assert(s.subrange(35, 51) =~= hex_digits(l as int, 16));
            assert(s[16] == DASH && s[33] == UNDERSCORE && s[34] == UNDERSCORE);
            assert(i.key_range == (Key(ks)..Key(ke)));
        },
        LayerFileName::Delta(d) => {
            let s = file_name_of(name);
            let (ks, ke) = (d.key_range.start.0, d.key_range.end.0);
            let (l, le) = (d.lsn_range.start.0, d.lsn_range.end.0);
            lemma_digits_spell(ks as int, 16);
            lemma_digits_spell(ke as int, 16);
            lemma_digits_spell(l as int, 16);
            lemma_digits_spell(le as int, 16);
            assert(s.len() == 68);
            assert(s.subrange(0, 16) =~= hex_digits(ks as int, 16));
            assert(s.subrange(17, 33) =~= hex_digits(ke as int, 16));
            assert(s.subrange(35, 51) =~= hex_digits(l as int, 16));
            assert(s.subrange(52, 68) =~= hex_digits(le as int, 16));
            assert(s[16] == DASH && s[33] == UNDERSCORE && s[34] == UNDERSCORE && s[51] == DASH);
            assert(d.key_range == (Key(ks)..Key(ke)));
            assert(d.lsn_range == (Lsn(l)..Lsn(le)));
        },
    }
}

/// Bytes that name a layer file are the name of that file: no two spellings
/// name the same layer.
pub proof fn lemma_parse_round_trips(s: Seq<u8>)
    requires
        named_layer(s) is Some,
    ensures
        file_name_of(named_layer(s).unwrap()) == s,
{
    let a = s.subrange(0, 16);
    let b = s.subrange(17, 33);
    let c = s.subrange(35, 51);
    lemma_spelling_is_digits(a);
    lemma_spelling_is_digits(b);
    lemma_spelling_is_digits(c);
    crate::load::lemma_pow16(16, 16);
    if s.len() == 51 {
        assert(file_name_of(named_layer(s).unwrap()) =~= s);
    } else {
        let d = s.subrange(52, 68);
        lemma_spelling_is_digits(d);
        assert(file_name_of(named_layer(s).unwrap()) =~= s);
    }
}

} // verus!
