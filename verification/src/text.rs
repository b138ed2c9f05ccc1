//! Decimal rendering of integers and joining of path components.
use vstd::prelude::*;

verus! {

/// The character of decimal digit `d`.
pub open spec fn digit_char(d: int) -> char {
    if d == 0 {
        '0'
    } else if d == 1 {
        '1'
    } else if d == 2 {
        '2'
    } else if d == 3 {
        '3'
    } else if d == 4 {
        '4'
    } else if d == 5 {
        '5'
    } else if d == 6 {
        '6'
    } else if d == 7 {
        '7'
    } else if d == 8 {
        '8'
    } else {
        '9'
    }
}

/// The decimal digits of `n`, most significant first, without leading zeros.
pub open spec fn decimal(n: nat) -> Seq<char>
    decreases n,
{
    if n < 10 {
        seq![digit_char(n as int)]
    } else {
        decimal(n / 10) + seq![digit_char((n % 10) as int)]
    }
}

/// `v` in decimal, with a leading `-` when it is negative.
pub open spec fn signed_decimal(v: int) -> Seq<char> {
    if v < 0 {
        seq!['-'] + decimal((-v) as nat)
    } else {
        decimal(v as nat)
    }
}

/// `part` appended to the path `base` as a new component: a `/` separates them
/// unless `base` is empty or already ends in `/`. The separator is `/` on every platform
/// (Windows file APIs accept it too); a `\` that ends `base` is not taken as a separator.
pub open spec fn join_path(base: Seq<char>, part: Seq<char>) -> Seq<char> {
    if base.len() == 0 {
        part
    } else if base.last() == '/' {
        base + part
    } else {
        base + seq!['/'] + part
    }
}

/// Distinct digits have distinct characters.
proof fn lemma_digit_char_injective(a: int, b: int)
    requires
        0 <= a < 10,
        0 <= b < 10,
        digit_char(a) == digit_char(b),
    ensures
        a == b,
{
}

/// `decimal(n)` is made of digits only (no `-`, `.` or `/`), has at least one of them,
/// and at least two when `n` is 10 or more.
pub proof fn lemma_decimal_has_only_digits(n: nat)
    ensures
        decimal(n).len() >= 1,
        n >= 10 ==> decimal(n).len() >= 2,
        forall|i: int|
            0 <= i < decimal(n).len() ==> #[trigger] decimal(n)[i] != '-' && decimal(n)[i] != '.' && decimal(n)[i] != '/',
    decreases n,
{
    if n >= 10 {
        lemma_decimal_has_only_digits(n / 10);
        let prefix = decimal(n / 10);
        assert forall|i: int| 0 <= i < decimal(n).len() implies #[trigger] decimal(n)[i] != '-' && decimal(n)[i] != '.'
            && decimal(n)[i] != '/' by {
            if i < prefix.len() {
                assert(decimal(n)[i] == prefix[i]);
            }
        }
    }
}

/// Distinct numbers have distinct decimal renderings.
pub proof fn lemma_decimal_injective(a: nat, b: nat)
    requires
        decimal(a) == decimal(b),
    ensures
        a == b,
    decreases a,
{
    lemma_decimal_has_only_digits(a);
    lemma_decimal_has_only_digits(b);
    if a < 10 && b < 10 {
        assert(decimal(a)[0] == digit_char(a as int));
        assert(decimal(b)[0] == digit_char(b as int));
        lemma_digit_char_injective(a as int, b as int);
    } else if a >= 10 && b >= 10 {
        let da = decimal(a / 10);
        let db = decimal(b / 10);
        assert(da =~= decimal(a).drop_last());
        assert(db =~= decimal(b).drop_last());
        lemma_decimal_injective(a / 10, b / 10);
        assert(decimal(a).last() == digit_char((a % 10) as int));
        assert(decimal(b).last() == digit_char((b % 10) as int));
        lemma_digit_char_injective((a % 10) as int, (b % 10) as int);
    }
}

/// `signed_decimal(v)` has no `.` or `/` and is never empty.
pub proof fn lemma_signed_decimal_has_no_separators(v: int)
    ensures
        signed_decimal(v).len() >= 1,
        forall|i: int|
            0 <= i < signed_decimal(v).len() ==> #[trigger] signed_decimal(v)[i] != '.' && signed_decimal(v)[i] != '/',
{
    if v < 0 {
        lemma_decimal_has_only_digits((-v) as nat);
        assert forall|i: int| 0 <= i < signed_decimal(v).len() implies #[trigger] signed_decimal(v)[i] != '.'
            && signed_decimal(v)[i] != '/' by {
            if i > 0 {
                assert(signed_decimal(v)[i] == decimal((-v) as nat)[i - 1]);
            }
        }
    } else {
        lemma_decimal_has_only_digits(v as nat);
    }
}

/// Distinct integers have distinct signed decimal renderings.
pub proof fn lemma_signed_decimal_injective(v: int, w: int)
    requires
        signed_decimal(v) == signed_decimal(w),
    ensures
        v == w,
{
    if v < 0 {
        lemma_decimal_has_only_digits((-v) as nat);
    }
    if w < 0 {
        lemma_decimal_has_only_digits((-w) as nat);
    }
    if v >= 0 {
        lemma_decimal_has_only_digits(v as nat);
        assert(signed_decimal(v)[0] != '-');
    }
    if w >= 0 {
        lemma_decimal_has_only_digits(w as nat);
        assert(signed_decimal(w)[0] != '-');
    }
    if v < 0 && w < 0 {
        assert(decimal((-v) as nat) =~= signed_decimal(v).drop_first());
        assert(decimal((-w) as nat) =~= signed_decimal(w).drop_first());
        lemma_decimal_injective((-v) as nat, (-w) as nat);
    } else if v >= 0 && w >= 0 {
        lemma_decimal_injective(v as nat, w as nat);
    } else {
        assert(signed_decimal(v)[0] == signed_decimal(w)[0]);
    }
}

/// The directory part that `join_path` puts before `part`: empty, or ending in `/`.
pub open spec fn join_prefix(base: Seq<char>) -> Seq<char> {
    if base.len() == 0 {
        base
    } else if base.last() == '/' {
        base
    } else {
        base + seq!['/']
    }
}

/// Joining the same base to two components gives the same path only for the same component.
pub proof fn lemma_join_path_injective_in_part(base: Seq<char>, p: Seq<char>, q: Seq<char>)
    requires
        join_path(base, p) == join_path(base, q),
    ensures
        p == q,
{
    let pre = join_prefix(base);
    assert(join_path(base, p) =~= pre + p);
    assert(join_path(base, q) =~= pre + q);
    assert(p =~= (pre + p).skip(pre.len() as int));
    assert(q =~= (pre + q).skip(pre.len() as int));
}

/// Two paths whose last components hold no `/` are equal only if those components are.
pub proof fn lemma_join_path_last_component(b1: Seq<char>, p: Seq<char>, b2: Seq<char>, q: Seq<char>)
    requires
        join_path(b1, p) == join_path(b2, q),
        forall|i: int| 0 <= i < p.len() ==> #[trigger] p[i] != '/',
        forall|i: int| 0 <= i < q.len() ==> #[trigger] q[i] != '/',
    ensures
        p == q,
{
    let s = join_path(b1, p);
    let pre1 = join_prefix(b1);
    let pre2 = join_prefix(b2);
    assert(s =~= pre1 + p);
    assert(s =~= pre2 + q);
    if pre1.len() > pre2.len() {
        assert(pre1.last() == '/');
        assert(s[pre1.len() - 1] == pre1[pre1.len() - 1]);
        assert(s[pre1.len() - 1] == q[pre1.len() - 1 - pre2.len()]);
    } else if pre2.len() > pre1.len() {
        assert(pre2.last() == '/');
        assert(s[pre2.len() - 1] == pre2[pre2.len() - 1]);
        assert(s[pre2.len() - 1] == p[pre2.len() - 1 - pre1.len()]);
    } else {
        assert(p =~= s.skip(pre1.len() as int));
        assert(q =~= s.skip(pre2.len() as int));
    }
}

/// The one-character string of decimal digit `d`.
fn digit_str(d: u32) -> (s: &'static str)
    requires
        d < 10,
    ensures
        s@ == seq![digit_char(d as int)],
{
    proof {
        reveal_strlit("0");
        reveal_strlit("1");
        reveal_strlit("2");
        reveal_strlit("3");
        reveal_strlit("4");
        reveal_strlit("5");
        reveal_strlit("6");
        reveal_strlit("7");
        reveal_strlit("8");
        reveal_strlit("9");
    }
    if d == 0 {
        "0"
    } else if d == 1 {
        "1"
    } else if d == 2 {
        "2"
    } else if d == 3 {
        "3"
    } else if d == 4 {
        "4"
    } else if d == 5 {
        "5"
    } else if d == 6 {
        "6"
    } else if d == 7 {
        "7"
    } else if d == 8 {
        "8"
    } else {
        "9"
    }
}

/// Appends the decimal digits of `n` to `s`.
pub fn push_decimal(s: &mut String, n: u32)
    ensures
        final(s)@ == old(s)@ + decimal(n as nat),
    decreases n,
{
    if n >= 10 {
        push_decimal(s, n / 10);
    }
    s.append(digit_str(n % 10));
    proof {
        if n >= 10 {
            assert(decimal(n as nat) == decimal((n / 10) as nat) + seq![digit_char((n % 10) as int)]);
        }
    }
}

/// Appends `v` in decimal to `s`, with a leading `-` when it is negative.
pub fn push_signed_decimal(s: &mut String, v: i32)
    ensures
        final(s)@ == old(s)@ + signed_decimal(v as int),
{
    if v < 0 {
        proof {
            reveal_strlit("-");
        }
        s.append("-");
        let magnitude: i64 = -(v as i64);
        push_decimal(s, magnitude as u32);
    } else {
        push_decimal(s, v as u32);
    }
}

/// `part` appended to the path `base` as a new component, separated by `/` on every platform.
pub fn join_path_str(base: &str, part: &str) -> (joined: String)
    ensures
        joined@ == join_path(base@, part@),
{
    let n = base.unicode_len();
    let mut joined = base.to_owned();
    if n > 0 && base.get_char(n - 1) != '/' {
        proof {
            reveal_strlit("/");
        }
        joined.append("/");
    }
    joined.append(part);
    joined
}

} // verus!
