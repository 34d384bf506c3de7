//! Names of the per-second counting buckets.
use vstd::prelude::*;
use vstd::string::StringExecFns;

verus! {

/// The character of a decimal digit.
pub open spec fn digit_char(d: nat) -> char {
    if d == 0 {
        '0'
    } else if d == 1 {
        '1'
    } else if d == 2 {
        '2'
    } else if d == 3 {
        '3'
    } else if d == 4 {
        '4'
    } else if d == 5 {
        '5'
    } else if d == 6 {
        '6'
    } else if d == 7 {
        '7'
    } else if d == 8 {
        '8'
    } else {
        '9'
    }
}

/// The decimal notation of `n`, without leading zeros.
pub open spec fn decimal(n: nat) -> Seq<char>
    decreases n,
{
    if n < 10 {
        seq![digit_char(n)]
    } else {
        decimal(n / 10).push(digit_char(n % 10))
    }
}

/// The key of the bucket that counts the cost admitted under `prefix`
/// during the Unix second `second`.
pub open spec fn bucket_key_of(prefix: Seq<char>, second: nat) -> Seq<char> {
    prefix + decimal(second)
}

/// How many earlier seconds the window reaches back from `now`: the window
/// covers `rate_seconds` seconds including `now` itself, and none before
/// the epoch.
pub open spec fn window_reach(now: nat, rate_seconds: nat) -> nat {
    if rate_seconds == 0 {
        0
    } else if rate_seconds - 1 <= now {
        (rate_seconds - 1) as nat
    } else {
        now
    }
}

/// The keys of the window's buckets other than the current one, newest
/// first: the seconds `now - 1`, `now - 2`, and so on.
pub open spec fn window_keys_of(prefix: Seq<char>, now: nat, rate_seconds: nat) -> Seq<Seq<char>> {
    Seq::new(window_reach(now, rate_seconds), |i: int| bucket_key_of(prefix, (now - 1 - i) as nat))
}

fn digit_str(d: u64) -> (r: &'static str)
    requires
        d < 10,
    ensures
        r@ == seq![digit_char(d as nat)],
{
    proof {
        reveal_strlit("0");
        reveal_strlit("1");
        reveal_strlit("2");
        reveal_strlit("3");
        reveal_strlit("4");
        reveal_strlit("5");
        reveal_strlit("6");
        reveal_strlit("7");
        reveal_strlit("8");
        reveal_strlit("9");
    }
    if d == 0 {
        "0"
    } else if d == 1 {
        "1"
    } else if d == 2 {
        "2"
    } else if d == 3 {
        "3"
    } else if d == 4 {
        "4"
    } else if d == 5 {
        "5"
    } else if d == 6 {
        "6"
    } else if d == 7 {
        "7"
    } else if d == 8 {
        "8"
    } else {
        "9"
    }
}

/// Appends the decimal notation of `n` to `s`.
pub fn push_decimal(s: &mut String, n: u64)
    ensures
        final(s)@ == old(s)@ + decimal(n as nat),
    decreases n,
{
    if n >= 10 {
        push_decimal(s, n / 10);
    }
    s.append(digit_str(n % 10));
    proof {
        if n >= 10 {
            assert(old(s)@ + decimal((n / 10) as nat) + seq![digit_char((n % 10) as nat)]
                =~= old(s)@ + decimal(n as nat));
        } else {
            assert(decimal(n as nat) == seq![digit_char((n % 10) as nat)]);
        }
    }
}

/// The key of the bucket for `prefix` and the Unix second `second`:
/// the prefix followed by the second in decimal.
pub fn bucket_key(prefix: &str, second: u64) -> (r: String)
    ensures
        r@ == bucket_key_of(prefix@, second as nat),
{
    let mut s = String::from_str(prefix);
    push_decimal(&mut s, second);
    s
}

/// The keys of the earlier buckets of the window that ends at `now`.
pub fn window_keys(prefix: &str, now: u64, rate_seconds: u32) -> (r: Vec<String>)
    ensures
        r@.len() == window_reach(now as nat, rate_seconds as nat),
        forall|i: int| 0 <= i < r@.len() ==> #[trigger] r@[i]@ == window_keys_of(prefix@, now as nat, rate_seconds as nat)[i],
{
    let reach: u64 = if rate_seconds == 0 {
        0
    } else if (rate_seconds - 1) as u64 <= now {
        (rate_seconds - 1) as u64
    } else {
        now
    };
    let mut r: Vec<String> = Vec::new();
    let mut i: u64 = 0;
    while i < reach
        invariant
            reach == window_reach(now as nat, rate_seconds as nat),
            reach <= now,
            i <= reach,
            r@.len() == i,
            forall|j: int| 0 <= j < i ==> #[trigger] r@[j]@ == window_keys_of(prefix@, now as nat, rate_seconds as nat)[j],
        decreases reach - i,
    {
        r.push(bucket_key(prefix, now - 1 - i));
        i = i + 1;
    }
    r
}

} // verus!
