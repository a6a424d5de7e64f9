use vstd::prelude::*;
use vstd::string::StringExecFns;
use crate::model::ByteType;
use crate::text::{digit_char, digits, pad_left, pad_left_exec, push_digits};

verus! {

/// 1024 for binary units, 1000 for decimal ones.
pub open spec fn unit_base(byte_type: ByteType) -> int {
    match byte_type {
        ByteType::Binary => 1024,
        ByteType::Decimal => 1000,
    }
}

pub open spec fn pow(b: int, k: nat) -> int
    decreases k,
{
    if k == 0 {
        1
    } else {
        b * pow(b, (k - 1) as nat)
    }
}

/// Unit index reached from `k`: advance while the size is strictly above the
/// next power of the base, up to index 4.
pub open spec fn unit_index_from(size: int, base: int, k: nat) -> nat
    decreases 4 - k,
{
    if k < 4 && size > pow(base, k + 1) {
        unit_index_from(size, base, k + 1)
    } else {
        k
    }
}

/// Index into the unit prefixes (none, K, M, G, T) for `size`.
pub open spec fn unit_index(size: int, base: int) -> nat {
    unit_index_from(size, base, 0)
}

/// `n / d` rounded to the nearest integer, ties to the even one.
pub open spec fn round_half_even(n: int, d: int) -> int {
    let q = n / d;
    let r = n % d;
    if 2 * r > d {
        q + 1
    } else if 2 * r == d && q % 2 == 1 {
        q + 1
    } else {
        q
    }
}

/// The size in its unit, in thousandths.
pub open spec fn thousandths(size: int, base: int) -> int {
    round_half_even(size * 1000, pow(base, unit_index(size, base)))
}

/// `q` thousandths as a decimal with three places.
pub open spec fn fixed3(q: nat) -> Seq<char> {
    digits(q / 1000) + seq!['.', digit_char((q / 100 % 10) as int), digit_char((q / 10 % 10) as int), digit_char((q % 10) as int)]
}

pub open spec fn prefix_char(k: nat, byte_type: ByteType) -> char {
    if k == 0 {
        ' '
    } else if k == 1 {
        match byte_type {
            ByteType::Binary => 'K',
            ByteType::Decimal => 'k',
        }
    } else if k == 2 {
        'M'
    } else if k == 3 {
        'G'
    } else {
        'T'
    }
}

/// Human readable size: the value in its unit with three decimals,
/// right-aligned in seven characters, a space, the unit prefix and `B`.
pub open spec fn size_text(size: int, byte_type: ByteType) -> Seq<char> {
    let base = unit_base(byte_type);
    pad_left(fixed3(thousandths(size, base) as nat), 7) + seq![
        ' ',
        prefix_char(unit_index(size, base), byte_type),
        'B',
    ]
}

proof fn lemma_pow_bounds(b: int, k: nat)
    requires
        1 <= b <= 1024,
        k <= 5,
    ensures
        1 <= pow(b, k) <= pow(1024, k),
        pow(1024, k) <= 1125899906842624,
    decreases k,
{
    reveal_with_fuel(pow, 6);
    if k > 0 {
        lemma_pow_bounds(b, (k - 1) as nat);
        assert(b * pow(b, (k - 1) as nat) <= 1024 * pow(1024, (k - 1) as nat)) by (nonlinear_arith)
            requires
                1 <= b <= 1024,
                1 <= pow(b, (k - 1) as nat) <= pow(1024, (k - 1) as nat),
        ;
        assert(1 <= b * pow(b, (k - 1) as nat)) by (nonlinear_arith)
            requires
                1 <= b,
                1 <= pow(b, (k - 1) as nat),
        ;
    }
}

fn prefix_str(k: usize, byte_type: &ByteType) -> (r: &'static str)
    ensures
        r@ == seq![prefix_char(k as nat, *byte_type)],
{
    if k == 0 {
        proof { reveal_strlit(" "); }
        " "
    } else if k == 1 {
        match byte_type {
            ByteType::Binary => {
                proof { reveal_strlit("K"); }
                "K"
            },
            ByteType::Decimal => {
                proof { reveal_strlit("k"); }
                "k"
            },
        }
    } else if k == 2 {
        proof { reveal_strlit("M"); }
        "M"
    } else if k == 3 {
        proof { reveal_strlit("G"); }
        "G"
    } else {
        proof { reveal_strlit("T"); }
        "T"
    }
}

fn unit_divisor(size: u64, byte_type: &ByteType) -> (r: (usize, u64))
    ensures
        r.0 == unit_index(size as int, unit_base(*byte_type)),
        r.1 == pow(unit_base(*byte_type), r.0 as nat),
        1 <= r.1,
{
    let base: u64 = match byte_type {
        ByteType::Binary => 1024,
        ByteType::Decimal => 1000,
    };
    let ghost b = unit_base(*byte_type);
    let mut idx: usize = 0;
    let mut div: u64 = 1;
    proof {
        lemma_pow_bounds(b, 1);
    }
    while idx < 4 && size > base * div
        invariant
            base == b,
            1000 <= b <= 1024,
            idx <= 4,
            div == pow(b, idx as nat),
            unit_index(size as int, b) == unit_index_from(size as int, b, idx as nat),
            base * div <= 1125899906842624,
        decreases 4 - idx,
    {
        proof {
            assert(pow(b, (idx + 1) as nat) == b * pow(b, idx as nat));
        }
        div = base * div;
        idx = idx + 1;
        proof {
            lemma_pow_bounds(b, (idx + 1) as nat);
            assert(pow(b, (idx + 1) as nat) == b * pow(b, idx as nat));
        }
    }
    proof {
        assert(pow(b, (idx + 1) as nat) == b * pow(b, idx as nat));
        assert(unit_index_from(size as int, b, idx as nat) == idx);
        lemma_pow_bounds(b, idx as nat);
    }
    (idx, div)
}

fn rounded_thousandths(size: u64, div: u64) -> (q: u128)
    requires
        div >= 1,
    ensures
        q == round_half_even(size * 1000, div as int),
{
    let n: u128 = size as u128 * 1000;
    let d: u128 = div as u128;
    let q0 = n / d;
    let rem = n % d;
    if 2 * rem > d || (2 * rem == d && q0 % 2 == 1) {
        q0 + 1
    } else {
        q0
    }
}

/// Formats `size` in units of 1024 (binary) or 1000 (decimal), e.g.
/// `"  1.500 KB"`; a size equal to the base stays in the smaller unit.
pub fn format_size(size: u64, byte_type: &ByteType) -> (r: String)
    ensures
        r@ == size_text(size as int, *byte_type),
{
    let (idx, div) = unit_divisor(size, byte_type);
    let q = rounded_thousandths(size, div);
    let mut s = String::new();
    push_digits(&mut s, q / 1000);
    s.append(".");
    s.append(crate::text::digit_str(q / 100 % 10));
    s.append(crate::text::digit_str(q / 10 % 10));
    s.append(crate::text::digit_str(q % 10));
    proof {
        reveal_strlit(".");
        assert(s@ =~= fixed3(q as nat));
    }
    let mut r = pad_left_exec(s.as_str(), 7);
    r.append(" ");
    r.append(prefix_str(idx, byte_type));
    r.append("B");
    proof {
        reveal_strlit(" ");
        reveal_strlit("B");
        assert(r@ =~= size_text(size as int, *byte_type));
    }
    r
}

} // verus!
