//! Decimal numerals and the user id of the running process.
use vstd::prelude::*;
use crate::bytes::{append_bytes, opt_bytes, has_prefix, starts_with_bytes, str_bytes, utf8};

verus! {

/// The byte `0`.
pub const DIGIT_ZERO: u8 = 48;

/// The byte `+`.
pub const PLUS: u8 = 43;

/// The user id assumed when none can be found.
pub const FALLBACK_USER_ID: u32 = 1000;

/// Whether a byte is an ASCII decimal digit.
pub open spec fn is_digit(b: u8) -> bool {
    48 <= b <= 57
}

/// The decimal numeral of `n`, without leading zeros.
pub open spec fn decimal(n: nat) -> Seq<u8>
    decreases n,
{
    if n < 10 {
        seq![(48 + n) as u8]
    } else {
        decimal(n / 10).push((48 + n % 10) as u8)
    }
}

/// The number that a sequence of decimal digits denotes.
pub open spec fn digits_value(d: Seq<u8>) -> nat
    decreases d.len(),
{
    if d.len() == 0 {
        0
    } else {
        digits_value(d.drop_last()) * 10 + (d.last() - 48) as nat
    }
}

/// The bytes after an optional leading `+`.
pub open spec fn unsigned_digits(s: Seq<u8>) -> Seq<u8> {
    if s.len() > 0 && s[0] == PLUS {
        s.skip(1)
    } else {
        s
    }
}

/// Every byte is a decimal digit.
pub open spec fn all_digits(d: Seq<u8>) -> bool {
    forall|i: int| 0 <= i < d.len() ==> is_digit(#[trigger] d[i])
}

/// What `str::parse::<u32>` makes of the bytes: an optional `+`, then at least
/// one decimal digit and nothing else, denoting a number that fits in a `u32`.
pub open spec fn parse_u32_spec(s: Seq<u8>) -> Option<u32> {
    let d = unsigned_digits(s);
    if d.len() == 0 || !all_digits(d) {
        None
    } else if digits_value(d) > u32::MAX {
        None
    } else {
        Some(digits_value(d) as u32)
    }
}

/// The directory prefix of per-user runtime directories, `/run/user/`.
pub open spec fn runtime_user_prefix() -> Seq<u8> {
    utf8("/run/user/"@)
}

/// The runtime path `/run/user/<uid>/<name>`.
pub open spec fn runtime_user_path_spec(uid: u32, name: Seq<u8>) -> Seq<u8> {
    runtime_user_prefix() + decimal(uid as nat) + seq![47u8] + name
}

/// Where the user id comes from: the owner of `/proc/self` where it could be
/// read; else the number that follows `/run/user/` in `XDG_RUNTIME_DIR`; else 1000.
pub open spec fn current_user_id_spec(proc_self_owner: Option<u32>, xdg_runtime_dir: Option<Seq<u8>>) -> u32 {
    match proc_self_owner {
        Some(uid) => uid,
        None => match xdg_runtime_dir {
            Some(dir) => if has_prefix(dir, runtime_user_prefix()) {
                match parse_u32_spec(dir.skip(runtime_user_prefix().len() as int)) {
                    Some(uid) => uid,
                    None => FALLBACK_USER_ID,
                }
            } else {
                FALLBACK_USER_ID
            },
            None => FALLBACK_USER_ID,
        },
    }
}

/// The decimal numeral of a `u32`.
pub fn u32_to_decimal(n: u32) -> (r: Vec<u8>)
    ensures
        r@ == decimal(n as nat),
    decreases n,
{
    if n < 10 {
        let mut v: Vec<u8> = Vec::new();
        v.push(48 + n as u8);
        v
    } else {
        let mut v = u32_to_decimal(n / 10);
        v.push(48 + (n % 10) as u8);
        v
    }
}

/// Each further digit makes the value at least as large.
proof fn lemma_digits_value_monotone(d: Seq<u8>, i: int)
    requires
        0 <= i <= d.len(),
        forall|k: int| 0 <= k < d.len() ==> is_digit(#[trigger] d[k]),
    ensures
        digits_value(d.subrange(0, i)) <= digits_value(d),
    decreases d.len() - i,
{
    if i < d.len() {
        lemma_digits_value_monotone(d, i + 1);
        assert(d.subrange(0, i + 1).drop_last() =~= d.subrange(0, i));
    } else {
        assert(d.subrange(0, i) =~= d);
    }
}

/// `str::parse::<u32>` on bytes.
pub fn parse_u32(s: &[u8]) -> (r: Option<u32>)
    ensures
        r == parse_u32_spec(s@),
{
    let start: usize = if s.len() > 0 && s[0] == PLUS {
        1
    } else {
        0
    };
    let ghost d = unsigned_digits(s@);
    assert(d =~= s@.subrange(start as int, s@.len() as int));
    if start == s.len() {
        return None;
    }
    let mut i: usize = start;
    while i < s.len()
        invariant
            start <= i <= s@.len(),
            d =~= s@.subrange(start as int, s@.len() as int),
            d == unsigned_digits(s@),
            forall|k: int| start <= k < i ==> is_digit(#[trigger] s@[k]),
        decreases s@.len() - i,
    {
        if !(48 <= s[i] && s[i] <= 57) {
            assert(d[i - start] == s@[i as int]);
            assert(!is_digit(d[i - start]));
            assert(!all_digits(d));
            return None;
        }
        i += 1;
    }
    assert(forall|k: int| 0 <= k < d.len() ==> is_digit(#[trigger] d[k]) ) by {
        assert forall|k: int| 0 <= k < d.len() implies is_digit(#[trigger] d[k]) by {
            assert(d[k] == s@[start + k]);
        }
    }
    let mut acc: u32 = 0;
    let mut j: usize = start;
    while j < s.len()
        invariant
            start <= j <= s@.len(),
            d =~= s@.subrange(start as int, s@.len() as int),
            d == unsigned_digits(s@),
            forall|k: int| 0 <= k < d.len() ==> is_digit(#[trigger] d[k]),
            forall|k: int| start <= k < s@.len() ==> is_digit(#[trigger] s@[k]),
            acc as nat == digits_value(d.subrange(0, j - start)),
        decreases s@.len() - j,
    {
        let digit = (s[j] - 48) as u32;
        proof {
            assert(d[j - start] == s@[j as int]);
            assert(d.subrange(0, j - start + 1).drop_last() =~= d.subrange(0, j - start));
            assert(d.subrange(0, j - start + 1).last() == s@[j as int]);
        }
        if acc > 429496729 || (acc == 429496729 && digit > 5) {
            proof {
                let prefix = d.subrange(0, j - start + 1);
                assert(digits_value(prefix) == digits_value(prefix.drop_last()) * 10 + (
                prefix.last() - 48) as nat);
                assert(digits_value(prefix) > u32::MAX);
                lemma_digits_value_monotone(d, j - start + 1);
                assert(digits_value(d) > u32::MAX);
            }
            return None;
        }
        acc = acc * 10 + digit;
        j += 1;
    }
    assert(d.subrange(0, d.len() as int) =~= d);
    Some(acc)
}

/// The runtime path `/run/user/<uid>/<name>`.
pub fn runtime_user_path(uid: u32, name: &[u8]) -> (r: Vec<u8>)
    ensures
        r@ == runtime_user_path_spec(uid, name@),
{
    let mut out = str_bytes("/run/user/");
    let digits = u32_to_decimal(uid);
    append_bytes(&mut out, digits.as_slice());
    out.push(47u8);
    append_bytes(&mut out, name);
    out
}

/// The user id of the running process, from the owner of `/proc/self` where it
/// could be read, else from `XDG_RUNTIME_DIR` of the form `/run/user/<uid>`,
/// else 1000.
pub fn resolve_current_user_id_safely(
    proc_self_owner: Option<u32>,
    xdg_runtime_dir: Option<Vec<u8>>,
) -> (uid: u32)
    ensures
        uid == current_user_id_spec(proc_self_owner, opt_bytes(xdg_runtime_dir)),
{
    match proc_self_owner {
        Some(uid) => uid,
        None => match xdg_runtime_dir {
            Some(dir) => {
                let prefix = str_bytes("/run/user/");
                if starts_with_bytes(dir.as_slice(), prefix.as_slice()) {
                    let rest = vstd::slice::slice_subrange(dir.as_slice(), prefix.len(), dir.len());
                    assert(rest@ =~= dir@.skip(prefix@.len() as int));
                    match parse_u32(rest) {
                        Some(uid) => uid,
                        None => FALLBACK_USER_ID,
                    }
                } else {
                    FALLBACK_USER_ID
                }
            },
            None => FALLBACK_USER_ID,
        },
    }
}

/// A numeral is a non-empty string of digits that denotes its number.
pub proof fn lemma_decimal_digits(n: nat)
    ensures
        decimal(n).len() > 0,
        all_digits(decimal(n)),
        digits_value(decimal(n)) == n,
    decreases n,
{
    if n >= 10 {
        lemma_decimal_digits(n / 10);
        let d = decimal(n);
        assert(d.drop_last() =~= decimal(n / 10));
        assert(n == (n / 10) * 10 + n % 10) by (nonlinear_arith);
        assert(d.last() - 48 == n % 10);
        assert(digits_value(d) == digits_value(d.drop_last()) * 10 + (d.last() - 48) as nat);
    } else {
        let d = decimal(n);
        assert(d.drop_last() =~= Seq::<u8>::empty());
        assert(digits_value(d) == digits_value(d.drop_last()) * 10 + (d.last() - 48) as nat);
        assert forall|i: int| 0 <= i < d.len() implies is_digit(#[trigger] d[i]) by {
            if i < d.len() - 1 {
                assert(d[i] == decimal(n / 10)[i]);
            }
        }
    }
}

/// Reading back a formatted number gives the number: `str::parse::<u32>`
/// undoes the decimal formatting of every `u32`.
pub proof fn law_parse_undoes_decimal(n: u32)
    ensures
        parse_u32_spec(decimal(n as nat)) == Some(n),
{
    lemma_decimal_digits(n as nat);
    assert(is_digit(decimal(n as nat)[0]));
    assert(unsigned_digits(decimal(n as nat)) == decimal(n as nat));
}

/// A user id written into a runtime directory `/run/user/<uid>` is the id read
/// back from it when `/proc/self` cannot be read.
pub proof fn law_user_id_from_runtime_dir(uid: u32)
    ensures
        current_user_id_spec(None, Some(runtime_user_prefix() + decimal(uid as nat))) == uid,
{
    law_parse_undoes_decimal(uid);
    let dir = runtime_user_prefix() + decimal(uid as nat);
    assert(dir.subrange(0, runtime_user_prefix().len() as int) =~= runtime_user_prefix());
    assert(dir.skip(runtime_user_prefix().len() as int) =~= decimal(uid as nat));
}

/// The owner of `/proc/self`, where it could be read, is the user id whatever
/// `XDG_RUNTIME_DIR` says; with neither, the user id is 1000.
pub proof fn law_user_id_sources(proc_self_owner: Option<u32>, xdg_runtime_dir: Option<Seq<u8>>)
    ensures
        proc_self_owner matches Some(u) ==> current_user_id_spec(proc_self_owner, xdg_runtime_dir)
            == u,
        proc_self_owner is None && xdg_runtime_dir is None ==> current_user_id_spec(
            proc_self_owner,
            xdg_runtime_dir,
        ) == 1000,
        proc_self_owner is None && (xdg_runtime_dir matches Some(d) && !has_prefix(
            d,
            utf8("/run/user/"@),
        )) ==> current_user_id_spec(proc_self_owner, xdg_runtime_dir) == 1000,
{
}

} // verus!
