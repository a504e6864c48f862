use vstd::prelude::*;

verus! {

/// Decimal digits of a number, most significant first, without sign or padding.
pub open spec fn decimal_digits(n: nat) -> Seq<char>
    decreases n,
{
    if n < 10 {
        seq![(('0' as int) + n) as char]
    } else {
        decimal_digits(n / 10).push((('0' as int) + n % 10) as char)
    }
}

/// A number has one digit exactly when it is below ten, and its last digit is its
/// remainder by ten.
pub proof fn lemma_decimal_shape(n: nat)
    ensures
        decimal_digits(n).len() >= 1,
        (decimal_digits(n).len() == 1) <==> n < 10,
        decimal_digits(n).last() == (('0' as int) + n % 10) as char,
    decreases n,
{
    if n >= 10 {
        lemma_decimal_shape(n / 10);
    }
}

/// Different numbers are written differently.
pub proof fn lemma_decimal_injective(n: nat, m: nat)
    requires
        decimal_digits(n) == decimal_digits(m),
    ensures
        n == m,
    decreases n,
{
    lemma_decimal_shape(n);
    lemma_decimal_shape(m);
    if n >= 10 {
        assert(decimal_digits(n).drop_last() == decimal_digits(n / 10));
        assert(decimal_digits(m).drop_last() == decimal_digits(m / 10));
        lemma_decimal_injective(n / 10, m / 10);
    }
}

fn digit_text(d: u32) -> (r: &'static str)
    requires
        d < 10,
    ensures
        r@ == seq![(('0' as int) + d) as char],
{
    match d {
        0 => {
            proof {
                reveal_strlit("0");
            }
            "0"
        },
        1 => {
            proof {
                reveal_strlit("1");
            }
            "1"
        },
        2 => {
            proof {
                reveal_strlit("2");
            }
            "2"
        },
        3 => {
            proof {
                reveal_strlit("3");
            }
            "3"
        },
        4 => {
            proof {
                reveal_strlit("4");
            }
            "4"
        },
        5 => {
            proof {
                reveal_strlit("5");
            }
            "5"
        },
        6 => {
            proof {
                reveal_strlit("6");
            }
            "6"
        },
        7 => {
            proof {
                reveal_strlit("7");
            }
            "7"
        },
        8 => {
            proof {
                reveal_strlit("8");
            }
            "8"
        },
        _ => {
            proof {
                reveal_strlit("9");
            }
            "9"
        },
    }
}

/// A number written in decimal.
pub fn decimal_string(n: u32) -> (r: String)
    ensures
        r@ == decimal_digits(n as nat),
{
    decimal_string_u64(n as u64)
}

/// A wide number written in decimal.
pub fn decimal_string_u64(n: u64) -> (r: String)
    ensures
        r@ == decimal_digits(n as nat),
    decreases n,
{
    if n < 10 {
        String::from_str(digit_text(n as u32))
    } else {
        let head = decimal_string_u64(n / 10);
        let r = head.concat(digit_text((n % 10) as u32));
        proof {
            assert(r@ =~= decimal_digits(n as nat));
        }
        r
    }
}

/// Whether two texts are the same.
pub fn text_eq(a: &str, b: &str) -> (r: bool)
    ensures
        r == (a@ == b@),
{
    let n = a.unicode_len();
    if n != b.unicode_len() {
        return false;
    }
    let mut i: usize = 0;
    while i < n
        invariant
            n == a@.len(),
            n == b@.len(),
            i <= n,
            forall|k: int| 0 <= k < i ==> a@[k] == b@[k],
        decreases n - i,
    {
        if a.get_char(i) != b.get_char(i) {
            return false;
        }
        i += 1;
    }
    proof {
        assert(a@ =~= b@);
    }
    true
}

} // verus!
