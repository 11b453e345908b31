//! Human-readable byte counts with one fractional digit.
use vstd::prelude::*;

verus! {

/// The character of a decimal digit.
pub open spec fn digit_char(d: nat) -> char {
    if d == 0 {
        '0'
    } else if d == 1 {
        '1'
    } else if d == 2 {
        '2'
    } else if d == 3 {
        '3'
    } else if d == 4 {
        '4'
    } else if d == 5 {
        '5'
    } else if d == 6 {
        '6'
    } else if d == 7 {
        '7'
    } else if d == 8 {
        '8'
    } else {
        '9'
    }
}

/// The decimal text of `n`, without leading zeros.
pub open spec fn decimal(n: nat) -> Seq<char>
    decreases n,
{
    if n < 10 {
        seq![digit_char(n)]
    } else {
        decimal(n / 10).push(digit_char(n % 10))
    }
}

/// Index into `B, KB, MB, GB`: how many times 1024 divides into the count
/// while it stays at least 1024, stopping at GB.
pub open spec fn unit_index(bytes: nat) -> nat {
    if bytes < 1024 {
        0
    } else if bytes < 1024 * 1024 {
        1
    } else if bytes < 1024 * 1024 * 1024 {
        2
    } else {
        3
    }
}

pub open spec fn unit_scale(k: nat) -> nat {
    if k == 0 {
        1
    } else if k == 1 {
        1024
    } else if k == 2 {
        1024 * 1024
    } else {
        1024 * 1024 * 1024
    }
}

pub open spec fn unit_name(k: nat) -> Seq<char> {
    if k == 0 {
        seq!['B']
    } else if k == 1 {
        seq!['K', 'B']
    } else if k == 2 {
        seq!['M', 'B']
    } else {
        seq!['G', 'B']
    }
}

/// `bytes / scale` in tenths, rounded to the nearest tenth, ties to even.
pub open spec fn rounded_tenths(bytes: nat, scale: nat) -> nat
    recommends
        scale > 0,
{
    let q = (10 * bytes) / scale;
    let r = (10 * bytes) % scale;
    if 2 * r > scale || (2 * r == scale && q % 2 == 1) {
        q + 1
    } else {
        q
    }
}

/// The text for a byte count: the scaled value with one fractional digit,
/// a space, and the unit.
pub open spec fn size_text(bytes: nat) -> Seq<char> {
    let k = unit_index(bytes);
    let t = rounded_tenths(bytes, unit_scale(k));
    decimal(t / 10) + seq!['.', digit_char(t % 10), ' '] + unit_name(k)
}

fn digit_text(d: u64) -> (r: &'static str)
    requires
        d < 10,
    ensures
        r@ == seq![digit_char(d as nat)],
{
    proof {
        reveal_strlit("0");
        reveal_strlit("1");
        reveal_strlit("2");
        reveal_strlit("3");
        reveal_strlit("4");
        reveal_strlit("5");
        reveal_strlit("6");
        reveal_strlit("7");
        reveal_strlit("8");
        reveal_strlit("9");
    }
    if d == 0 {
        "0"
    } else if d == 1 {
        "1"
    } else if d == 2 {
        "2"
    } else if d == 3 {
        "3"
    } else if d == 4 {
        "4"
    } else if d == 5 {
        "5"
    } else if d == 6 {
        "6"
    } else if d == 7 {
        "7"
    } else if d == 8 {
        "8"
    } else {
        "9"
    }
}

fn push_decimal(s: &mut String, n: u64)
    ensures
        final(s)@ == old(s)@ + decimal(n as nat),
    decreases n,
{
    if n >= 10 {
        push_decimal(s, n / 10);
    }
    s.append(digit_text(n % 10));
    assert(final(s)@ =~= old(s)@ + decimal(n as nat));
}

/// Formats a byte count as `"<value>.<tenth> <unit>"`, e.g. `1536` as `"1.5 KB"`.
pub fn format_size(bytes: &u64) -> (r: String)
    ensures
        r@ == size_text(*bytes as nat),
{
    let b: u64 = *bytes;
    let k: u64 = if b < 1024 {
        0
    } else if b < 1024 * 1024 {
        1
    } else if b < 1024 * 1024 * 1024 {
        2
    } else {
        3
    };
    let scale: u128 = if k == 0 {
        1
    } else if k == 1 {
        1024
    } else if k == 2 {
        1024 * 1024
    } else {
        1024 * 1024 * 1024
    };
    let scaled: u128 = 10 * (b as u128);
    let q: u128 = scaled / scale;
    let rem: u128 = scaled % scale;
    let t: u128 = if 2 * rem > scale || (2 * rem == scale && q % 2 == 1) {
        q + 1
    } else {
        q
    };
    assert(t == rounded_tenths(b as nat, unit_scale(k as nat)));
    assert(t <= 10 * (b as u128) + 1);
    let whole: u64 = (t / 10) as u64;
    let tenth: u64 = (t % 10) as u64;
    let mut r = String::new();
    push_decimal(&mut r, whole);
    proof {
        reveal_strlit(".");
        reveal_strlit(" ");
        reveal_strlit("B");
        reveal_strlit("KB");
        reveal_strlit("MB");
        reveal_strlit("GB");
    }
    r.append(".");
    r.append(digit_text(tenth));
    r.append(" ");
    if k == 0 {
        r.append("B");
    } else if k == 1 {
        r.append("KB");
    } else if k == 2 {
        r.append("MB");
    } else {
        r.append("GB");
    }
    assert(r@ =~= size_text(b as nat));
    r
}

} // verus!
