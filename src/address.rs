use vstd::prelude::*;

use crate::types::{BitAddress, ByteAddress, DataType, RegAddress};

verus! {

pub open spec fn is_digit(c: char) -> bool {
    '0' <= c && c <= '9'
}

/// One or more decimal digits, with no sign.
pub open spec fn is_decimal(s: Seq<char>) -> bool {
    s.len() > 0 && forall|i: int| 0 <= i < s.len() ==> is_digit(#[trigger] s[i])
}

pub open spec fn digit_value(c: char) -> nat {
    (c as int - '0' as int) as nat
}

/// The value of a run of decimal digits, most significant digit first.
pub open spec fn decimal_value(s: Seq<char>) -> nat
    decreases s.len(),
{
    if s.len() == 0 {
        0
    } else {
        decimal_value(s.drop_last()) * 10 + digit_value(s.last())
    }
}

/// `id` reads `DB<db>.DBX<byte>.<bit>`.
pub open spec fn bit_form(id: Seq<char>, db: Seq<char>, byte: Seq<char>, bit: Seq<char>) -> bool {
    &&& is_decimal(db)
    &&& is_decimal(byte)
    &&& is_decimal(bit)
    &&& id == seq!['D', 'B'] + db + seq!['.', 'D', 'B', 'X'] + byte + seq!['.'] + bit
}

/// `id` reads `DB<db>.DB<tag><byte>`.
pub open spec fn byte_form(id: Seq<char>, tag: char, db: Seq<char>, byte: Seq<char>) -> bool {
    &&& is_decimal(db)
    &&& is_decimal(byte)
    &&& id == seq!['D', 'B'] + db + seq!['.', 'D', 'B', tag] + byte
}

/// The letter that names the width of a byte address: a double word (`D`)
/// for the four-byte types, a word (`W`) for `INT16`.
pub open spec fn width_tag(t: DataType) -> char {
    match t {
        DataType::INT16 => 'W',
        _ => 'D',
    }
}

/// `id` spells address `a` in the grammar that data type `t` is given:
/// `DB<db>.DBX<byte>.<bit>` with a bit from 0 to 7 for `BOOL`,
/// `DB<db>.DBD<byte>` for `FLOAT` and `INT32`, `DB<db>.DBW<byte>` for
/// `INT16`. Every number is written in decimal and fits its field.
pub open spec fn spells(id: Seq<char>, t: DataType, a: RegAddress) -> bool {
    match a {
        RegAddress::Bit(b) => t == DataType::BOOL && b.bit <= 7 && exists|
            p: Seq<char>,
            q: Seq<char>,
            r: Seq<char>,
        |
            #![trigger bit_form(id, p, q, r)]
            bit_form(id, p, q, r) && decimal_value(p) == b.db && decimal_value(q) == b.byte
                && decimal_value(r) == b.bit,
        RegAddress::Byte(b) => t != DataType::BOOL && exists|p: Seq<char>, q: Seq<char>|
            #![trigger byte_form(id, width_tag(t), p, q)]
            byte_form(id, width_tag(t), p, q) && decimal_value(p) == b.db && decimal_value(q)
                == b.byte,
    }
}

/// The address that `id` spells for data type `t`, if it spells one.
pub open spec fn address_of(id: Seq<char>, t: DataType) -> Option<RegAddress> {
    if exists|a: RegAddress| spells(id, t, a) {
        Some(choose|a: RegAddress| spells(id, t, a))
    } else {
        None
    }
}

/// Where the run of digits of `s` that starts at `i` ends.
spec fn run_end(s: Seq<char>, i: int) -> int
    decreases s.len() - i,
{
    if 0 <= i < s.len() && is_digit(s[i]) {
        run_end(s, i + 1)
    } else {
        i
    }
}

proof fn lemma_run_end(s: Seq<char>, i: int)
    requires
        0 <= i <= s.len(),
    ensures
        i <= run_end(s, i) <= s.len(),
        forall|k: int| i <= k < run_end(s, i) ==> is_digit(#[trigger] s[k]),
        run_end(s, i) == s.len() || !is_digit(s[run_end(s, i)]),
    decreases s.len() - i,
{
    if i < s.len() && is_digit(s[i]) {
        lemma_run_end(s, i + 1);
    }
}

proof fn lemma_run_end_at(s: Seq<char>, i: int, e: int)
    requires
        0 <= i <= e <= s.len(),
        forall|k: int| i <= k < e ==> is_digit(#[trigger] s[k]),
        e == s.len() || !is_digit(s[e]),
    ensures
        run_end(s, i) == e,
    decreases e - i,
{
    if i < e {
        lemma_run_end_at(s, i + 1, e);
    }
}

proof fn lemma_decimal_monotone(s: Seq<char>, start: int, k: int, e: int)
    requires
        0 <= start <= k <= e <= s.len(),
    ensures
        decimal_value(s.subrange(start, k)) <= decimal_value(s.subrange(start, e)),
    decreases e - k,
{
    if k < e {
        lemma_decimal_monotone(s, start, k, e - 1);
        assert(s.subrange(start, e).drop_last() =~= s.subrange(start, e - 1));
    }
}

/// What a bit address spelled by `id` fixes: the runs of digits and the
/// literal text between them.
spec fn bit_layout(id: Seq<char>, b: BitAddress) -> bool {
    let e1 = run_end(id, 2);
    let e2 = run_end(id, e1 + 4);
    let e3 = run_end(id, e2 + 1);
    &&& id.len() >= 2 && id[0] == 'D' && id[1] == 'B'
    &&& 2 < e1 && decimal_value(id.subrange(2, e1)) == b.db
    &&& e1 + 4 <= id.len() && id[e1] == '.' && id[e1 + 1] == 'D' && id[e1 + 2] == 'B' && id[e1
        + 3] == 'X'
    &&& e1 + 4 < e2 && decimal_value(id.subrange(e1 + 4, e2)) == b.byte
    &&& e2 < id.len() && id[e2] == '.'
    &&& e2 + 1 < e3 && e3 == id.len() && decimal_value(id.subrange(e2 + 1, e3)) == b.bit
    &&& b.bit <= 7
}

/// What a byte address spelled by `id` with width letter `tag` fixes.
spec fn byte_layout(id: Seq<char>, tag: char, b: ByteAddress) -> bool {
    let e1 = run_end(id, 2);
    let e2 = run_end(id, e1 + 4);
    &&& id.len() >= 2 && id[0] == 'D' && id[1] == 'B'
    &&& 2 < e1 && decimal_value(id.subrange(2, e1)) == b.db
    &&& e1 + 4 <= id.len() && id[e1] == '.' && id[e1 + 1] == 'D' && id[e1 + 2] == 'B' && id[e1
        + 3] == tag
    &&& e1 + 4 < e2 && e2 == id.len() && decimal_value(id.subrange(e1 + 4, e2)) == b.byte
}

proof fn lemma_bit_layout(id: Seq<char>, b: BitAddress)
    ensures
        spells(id, DataType::BOOL, RegAddress::Bit(b)) <==> bit_layout(id, b),
{
    if spells(id, DataType::BOOL, RegAddress::Bit(b)) {
        let (p, q, r) = choose|p: Seq<char>, q: Seq<char>, r: Seq<char>|
            bit_form(id, p, q, r) && decimal_value(p) == b.db && decimal_value(q) == b.byte
                && decimal_value(r) == b.bit;
        let e1: int = 2 + p.len() as int;
        let e2: int = e1 + 4 + q.len();
        let e3: int = e2 + 1 + r.len();
        assert(id.subrange(2, e1) =~= p);
        assert(id.subrange(e1 + 4, e2) =~= q);
        assert(id.subrange(e2 + 1, e3) =~= r);
        assert(id[e1] == '.');
        assert(id[e2] == '.');
        lemma_run_end_at(id, 2, e1);
        lemma_run_end_at(id, e1 + 4, e2);
        lemma_run_end_at(id, e2 + 1, e3);
    }
    if bit_layout(id, b) {
        let e1 = run_end(id, 2);
        let e2 = run_end(id, e1 + 4);
        let e3 = run_end(id, e2 + 1);
        lemma_run_end(id, 2);
        lemma_run_end(id, e1 + 4);
        lemma_run_end(id, e2 + 1);
        let p = id.subrange(2, e1);
        let q = id.subrange(e1 + 4, e2);
        let r = id.subrange(e2 + 1, e3);
        assert(id =~= seq!['D', 'B'] + p + seq!['.', 'D', 'B', 'X'] + q + seq!['.'] + r);
        assert(bit_form(id, p, q, r));
    }
}

proof fn lemma_byte_layout(id: Seq<char>, t: DataType, b: ByteAddress)
    requires
        t != DataType::BOOL,
    ensures
        spells(id, t, RegAddress::Byte(b)) <==> byte_layout(id, width_tag(t), b),
{
    let tag = width_tag(t);
    if spells(id, t, RegAddress::Byte(b)) {
        let (p, q) = choose|p: Seq<char>, q: Seq<char>|
            byte_form(id, tag, p, q) && decimal_value(p) == b.db && decimal_value(q) == b.byte;
        let e1: int = 2 + p.len() as int;
        let e2: int = e1 + 4 + q.len();
        assert(id.subrange(2, e1) =~= p);
        assert(id.subrange(e1 + 4, e2) =~= q);
        assert(id[e1] == '.');
        lemma_run_end_at(id, 2, e1);
        lemma_run_end_at(id, e1 + 4, e2);
    }
    if byte_layout(id, tag, b) {
        let e1 = run_end(id, 2);
        let e2 = run_end(id, e1 + 4);
        lemma_run_end(id, 2);
        lemma_run_end(id, e1 + 4);
        let p = id.subrange(2, e1);
        let q = id.subrange(e1 + 4, e2);
        assert(id =~= seq!['D', 'B'] + p + seq!['.', 'D', 'B', tag] + q);
        assert(byte_form(id, tag, p, q));
    }
}

/// An address text spells at most one address for a given data type.
pub proof fn lemma_spelling_unique(id: Seq<char>, t: DataType, a1: RegAddress, a2: RegAddress)
    requires
        spells(id, t, a1),
        spells(id, t, a2),
    ensures
        a1 == a2,
{
    match (a1, a2) {
        (RegAddress::Bit(b1), RegAddress::Bit(b2)) => {
            lemma_bit_layout(id, b1);
            lemma_bit_layout(id, b2);
        },
        (RegAddress::Byte(b1), RegAddress::Byte(b2)) => {
            lemma_byte_layout(id, t, b1);
            lemma_byte_layout(id, t, b2);
        },
        _ => {},
    }
}


/// Once `id` spells `a`, `a` is the address that `id` spells.
pub proof fn lemma_address_of(id: Seq<char>, t: DataType, a: RegAddress)
    requires
        spells(id, t, a),
    ensures
        address_of(id, t) == Some(a),
{
    let c = choose|c: RegAddress| spells(id, t, c);
    lemma_spelling_unique(id, t, a, c);
}

/// Address text that spells a byte address spells no bit address: a `BOOL`
/// register never takes a byte-address form.
pub proof fn lemma_byte_form_is_no_bit_address(id: Seq<char>, t: DataType)
    requires
        t != DataType::BOOL,
        address_of(id, t) is Some,
    ensures
        address_of(id, DataType::BOOL) is None,
{
    let a = address_of(id, t)->Some_0;
    assert(spells(id, t, a));
    let b = a->Byte_0;
    lemma_byte_layout(id, t, b);
    assert forall|c: RegAddress| !spells(id, DataType::BOOL, c) by {
        if let RegAddress::Bit(bb) = c {
            lemma_bit_layout(id, bb);
        }
    }
}

/// Reads the run of decimal digits of `s` that starts at `start`, unless its
/// value exceeds `max`.
fn scan_decimal(s: &str, len: usize, start: usize, max: u32) -> (r: Option<(u32, usize)>)
    requires
        len == s@.len(),
        start <= len,
        max <= 65535,
    ensures
        match r {
            Some((v, end)) => {
                &&& end == run_end(s@, start as int)
                &&& start < end <= len
                &&& v as nat == decimal_value(s@.subrange(start as int, end as int))
                &&& v <= max
            },
            None => run_end(s@, start as int) == start || decimal_value(
                s@.subrange(start as int, run_end(s@, start as int)),
            ) > max,
        },
{
    let mut i: usize = start;
    let mut v: u32 = 0;
    assert(s@.subrange(start as int, start as int) =~= Seq::<char>::empty());
    while i < len
        invariant
            start <= i <= len,
            len == s@.len(),
            max <= 65535,
            run_end(s@, start as int) == run_end(s@, i as int),
            v as nat == decimal_value(s@.subrange(start as int, i as int)),
            v <= max,
        ensures
            run_end(s@, i as int) == i,
        decreases len - i,
    {
        let c = s.get_char(i);
        if c < '0' || c > '9' {
            break;
        }
        let d = (c as u32) - ('0' as u32);
        assert(s@.subrange(start as int, i + 1).drop_last() =~= s@.subrange(
            start as int,
            i as int,
        ));
        if v * 10 + d > max {
            proof {
                lemma_run_end(s@, i + 1);
                lemma_decimal_monotone(s@, start as int, i + 1, run_end(s@, start as int));
            }
            return None;
        }
        v = v * 10 + d;
        i = i + 1;
    }
    if i == start {
        return None;
    }
    Some((v, i))
}

fn parse_bit_address(id: &str) -> (r: Option<BitAddress>)
    ensures
        match r {
            Some(b) => bit_layout(id@, b),
            None => forall|b: BitAddress| !bit_layout(id@, b),
        },
{
    let len = id.unicode_len();
    if len < 2 || id.get_char(0) != 'D' || id.get_char(1) != 'B' {
        return None;
    }
    let (db, i) = match scan_decimal(id, len, 2, 65535) {
        Some(found) => found,
        None => return None,
    };
    if len - i < 4 || id.get_char(i) != '.' || id.get_char(i + 1) != 'D' || id.get_char(i + 2)
        != 'B' || id.get_char(i + 3) != 'X' {
        return None;
    }
    let (byte, j) = match scan_decimal(id, len, i + 4, 65535) {
        Some(found) => found,
        None => return None,
    };
    if j >= len || id.get_char(j) != '.' {
        return None;
    }
    let (bit, k) = match scan_decimal(id, len, j + 1, 7) {
        Some(found) => found,
        None => return None,
    };
    if k != len {
        return None;
    }
    Some(BitAddress { db: db as u16, byte: byte as u16, bit: bit as u8 })
}

fn parse_byte_address(id: &str, tag: char) -> (r: Option<ByteAddress>)
    ensures
        match r {
            Some(b) => byte_layout(id@, tag, b),
            None => forall|b: ByteAddress| !byte_layout(id@, tag, b),
        },
{
    let len = id.unicode_len();
    if len < 2 || id.get_char(0) != 'D' || id.get_char(1) != 'B' {
        return None;
    }
    let (db, i) = match scan_decimal(id, len, 2, 65535) {
        Some(found) => found,
        None => return None,
    };
    if len - i < 4 || id.get_char(i) != '.' || id.get_char(i + 1) != 'D' || id.get_char(i + 2)
        != 'B' || id.get_char(i + 3) != tag {
        return None;
    }
    let (byte, j) = match scan_decimal(id, len, i + 4, 65535) {
        Some(found) => found,
        None => return None,
    };
    if j != len {
        return None;
    }
    Some(ByteAddress { db: db as u16, byte: byte as u16 })
}

/// Reads the address text of a register of data type `data_type`, in the
/// grammar of that type alone.
pub fn parse_address(id: &str, data_type: DataType) -> (r: Option<RegAddress>)
    ensures
        r == address_of(id@, data_type),
{
    match data_type {
        DataType::BOOL => match parse_bit_address(id) {
            Some(b) => {
                proof {
                    lemma_bit_layout(id@, b);
                    lemma_address_of(id@, data_type, RegAddress::Bit(b));
                }
                Some(RegAddress::Bit(b))
            },
            None => {
                assert forall|a: RegAddress| !spells(id@, data_type, a) by {
                    if let RegAddress::Bit(b) = a {
                        lemma_bit_layout(id@, b);
                    }
                }
                None
            },
        },
        _ => {
            let tag = if let DataType::INT16 = data_type {
                'W'
            } else {
                'D'
            };
            match parse_byte_address(id, tag) {
                Some(b) => {
                    proof {
                        lemma_byte_layout(id@, data_type, b);
                        lemma_address_of(id@, data_type, RegAddress::Byte(b));
                    }
                    Some(RegAddress::Byte(b))
                },
                None => {
                    assert forall|a: RegAddress| !spells(id@, data_type, a) by {
                        if let RegAddress::Byte(b) = a {
                            lemma_byte_layout(id@, data_type, b);
                        }
                    }
                    None
                },
            }
        },
    }
}

} // verus!
