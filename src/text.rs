use vstd::prelude::*;

verus! {

/// The character of a digit value below sixteen, in lower case.
pub open spec fn digit_char(d: nat) -> char {
    if d < 10 {
        (d + 48) as char
    } else {
        (d + 87) as char
    }
}

/// Character of a digit value below sixteen.
pub fn digit(d: u8) -> (r: char)
    requires
        d < 16,
    ensures
        r == digit_char(d as nat),
{
    if d < 10 {
        (d + 48) as char
    } else {
        (d + 87) as char
    }
}

pub open spec fn is_decimal_digit(c: char) -> bool {
    '0' <= c && c <= '9'
}

/// The value of a decimal digit character.
pub open spec fn decimal_digit_value(c: char) -> nat {
    (c as nat - '0' as nat) as nat
}

/// The decimal rendering of `n`, without leading zeros.
pub open spec fn decimal(n: nat) -> Seq<char>
    decreases n,
{
    if n < 10 {
        seq![digit_char(n)]
    } else {
        decimal(n / 10).push(digit_char(n % 10))
    }
}

/// Whether every character of `s` is a decimal digit.
pub open spec fn all_decimal(s: Seq<char>) -> bool {
    forall|i: int| 0 <= i < s.len() ==> is_decimal_digit(#[trigger] s[i])
}

/// The value of a string of decimal digits, most significant first.
pub open spec fn decimal_value(s: Seq<char>) -> nat
    decreases s.len(),
{
    if s.len() == 0 {
        0
    } else {
        decimal_value(s.drop_last()) * 10 + decimal_digit_value(s.last())
    }
}

/// Whether `s` is a non-empty run of decimal digits whose value fits in a `u64`.
pub open spec fn is_u64_text(s: Seq<char>) -> bool {
    s.len() > 0 && all_decimal(s) && decimal_value(s) <= u64::MAX
}

/// A decimal rendering reads back as the number it renders.
pub proof fn lemma_decimal_round_trip(n: nat)
    ensures
        all_decimal(decimal(n)),
        decimal(n).len() > 0,
        decimal_value(decimal(n)) == n,
    decreases n,
{
    let last = digit_char(n % 10);
    assert(decimal_digit_value(last) == n % 10);
    assert(is_decimal_digit(last));
    if n < 10 {
        assert(decimal(n).drop_last() =~= Seq::<char>::empty());
        assert(decimal(n).last() == last);
        assert(decimal_value(Seq::<char>::empty()) == 0);
        assert(decimal_value(decimal(n)) == decimal_value(decimal(n).drop_last()) * 10
            + decimal_digit_value(decimal(n).last()));
    } else {
        lemma_decimal_round_trip(n / 10);
        let d = decimal(n);
        assert(d.drop_last() == decimal(n / 10));
        assert(d.last() == last);
        assert(n == (n / 10) * 10 + n % 10);
        assert(decimal_value(d) == decimal_value(d.drop_last()) * 10 + decimal_digit_value(
            d.last(),
        ));
        assert forall|i: int| 0 <= i < d.len() implies is_decimal_digit(#[trigger] d[i]) by {
            if i < d.len() - 1 {
                assert(d[i] == decimal(n / 10)[i]);
            }
        }
    }
}

/// The value of a prefix of digits is at most that of the whole.
proof fn lemma_prefix_value_le(s: Seq<char>, i: int)
    requires
        0 <= i <= s.len(),
    ensures
        decimal_value(s.subrange(0, i)) <= decimal_value(s),
    decreases s.len() - i,
{
    if i < s.len() {
        lemma_prefix_value_le(s, i + 1);
        let t = s.subrange(0, i + 1);
        assert(t.drop_last() =~= s.subrange(0, i));
    } else {
        assert(s.subrange(0, i) =~= s);
    }
}

/// Appends the decimal rendering of `n`.
pub fn push_decimal(out: &mut Vec<char>, n: u64)
    ensures
        final(out)@ == old(out)@ + decimal(n as nat),
    decreases n,
{
    if n >= 10 {
        push_decimal(out, n / 10);
    }
    out.push(digit((n % 10) as u8));
    proof {
        if n >= 10 {
            assert(decimal(n as nat) == decimal((n / 10) as nat).push(digit_char((n % 10) as nat)));
        }
        assert(final(out)@ =~= old(out)@ + decimal(n as nat));
    }
}

/// Reads `s[lo..hi]` as a decimal `u64`: `None` where it is empty, holds another
/// character, or is too large.
pub fn parse_u64(s: &Vec<char>, lo: usize, hi: usize) -> (r: Option<u64>)
    requires
        lo <= hi <= s@.len(),
    ensures
        r is Some <==> is_u64_text(s@.subrange(lo as int, hi as int)),
        r matches Some(v) ==> v as nat == decimal_value(s@.subrange(lo as int, hi as int)),
{
    let ghost t = s@.subrange(lo as int, hi as int);
    if lo == hi {
        return None;
    }
    let mut acc: u64 = 0;
    let mut i: usize = lo;
    while i < hi
        invariant
            lo <= i <= hi <= s@.len(),
            t == s@.subrange(lo as int, hi as int),
            all_decimal(t.subrange(0, i - lo)),
            acc as nat == decimal_value(t.subrange(0, i - lo)),
        decreases hi - i,
    {
        let c = s[i];
        let ghost p = t.subrange(0, i - lo + 1);
        proof {
            assert(p.drop_last() =~= t.subrange(0, i - lo));
            assert(p.last() == c);
        }
        if !('0' <= c && c <= '9') {
            proof {
                assert(t[i - lo] == c);
            }
            return None;
        }
        let d = (c as u32 - '0' as u32) as u64;
        if acc > (u64::MAX - d) / 10 {
            proof {
                assert(decimal_value(p) == acc * 10 + d);
                assert(decimal_value(p) > u64::MAX) by (nonlinear_arith)
                    requires
                        acc > (u64::MAX - d) / 10,
                        decimal_value(p) == acc * 10 + d,
                        d <= 9,
                ;
                lemma_prefix_value_le(t, i - lo + 1);
            }
            return None;
        }
        proof {
            assert((acc * 10 + d) <= u64::MAX) by (nonlinear_arith)
                requires
                    acc <= (u64::MAX - d) / 10,
                    d <= 9,
            ;
            assert forall|j: int| 0 <= j < p.len() implies is_decimal_digit(#[trigger] p[j]) by {
                if j < p.len() - 1 {
                    assert(p[j] == t.subrange(0, i - lo)[j]);
                }
            }
        }
        acc = acc * 10 + d;
        i = i + 1;
    }
    proof {
        assert(t.subrange(0, hi - lo) =~= t);
    }
    Some(acc)
}

pub open spec fn pow16(k: nat) -> nat
    decreases k,
{
    if k == 0 {
        1
    } else {
        16 * pow16((k - 1) as nat)
    }
}

pub open spec fn is_hex_digit(c: char) -> bool {
    ('0' <= c && c <= '9') || ('a' <= c && c <= 'f')
}

/// The value of a lower-case hexadecimal digit character.
pub open spec fn hex_digit_value(c: char) -> nat {
    if c <= '9' {
        (c as nat - '0' as nat) as nat
    } else {
        (c as nat - 'a' as nat + 10) as nat
    }
}

/// The value of a string of hexadecimal digits, most significant first.
pub open spec fn hex_value(s: Seq<char>) -> nat
    decreases s.len(),
{
    if s.len() == 0 {
        0
    } else {
        hex_value(s.drop_last()) * 16 + hex_digit_value(s.last())
    }
}

/// The low `k` hexadecimal digits of `v`, most significant first.
pub open spec fn hex_digits(v: nat, k: nat) -> Seq<char>
    decreases k,
{
    if k == 0 {
        Seq::empty()
    } else {
        hex_digits(v / 16, (k - 1) as nat).push(digit_char(v % 16))
    }
}

pub open spec fn all_hex(s: Seq<char>) -> bool {
    forall|i: int| 0 <= i < s.len() ==> is_hex_digit(#[trigger] s[i])
}

/// The hyphenated lower-case text of a UUID: 8-4-4-4-12 hexadecimal digits.
pub open spec fn uuid_text(v: u128) -> Seq<char> {
    let d = hex_digits(v as nat, 32);
    d.subrange(0, 8) + seq!['-'] + d.subrange(8, 12) + seq!['-'] + d.subrange(12, 16) + seq!['-']
        + d.subrange(16, 20) + seq!['-'] + d.subrange(20, 32)
}

/// Whether `s` has the shape of a hyphenated lower-case UUID.
pub open spec fn is_uuid_text(s: Seq<char>) -> bool {
    &&& s.len() == 36
    &&& forall|i: int|
        0 <= i < 36 ==> if i == 8 || i == 13 || i == 18 || i == 23 {
            s[i] == '-'
        } else {
            is_hex_digit(#[trigger] s[i])
        }
}

/// The digits of a hyphenated UUID text, without the hyphens.
pub open spec fn uuid_digits(s: Seq<char>) -> Seq<char> {
    s.subrange(0, 8) + s.subrange(9, 13) + s.subrange(14, 18) + s.subrange(19, 23) + s.subrange(
        24,
        36,
    )
}

/// The UUID that a text denotes, where it has the hyphenated lower-case shape.
pub open spec fn uuid_of_text(s: Seq<char>) -> Option<nat> {
    if is_uuid_text(s) {
        Some(hex_value(uuid_digits(s)))
    } else {
        None
    }
}

/// The text of a version: seconds, a colon, nanoseconds.
pub open spec fn version_text(seconds: nat, nanoseconds: nat) -> Seq<char> {
    decimal(seconds) + seq![':'] + decimal(nanoseconds)
}

/// The place of the first colon of `s` at or after `i`.
pub open spec fn colon_from(s: Seq<char>, i: int) -> Option<int>
    decreases s.len() - i,
{
    if i < 0 || i >= s.len() {
        None
    } else if s[i] == ':' {
        Some(i)
    } else {
        colon_from(s, i + 1)
    }
}

/// The seconds and nanoseconds that a version text denotes: two runs of decimal
/// digits around the first colon, each fitting in a `u64`.
pub open spec fn version_of_text(s: Seq<char>) -> Option<(nat, nat)> {
    match colon_from(s, 0) {
        None => None,
        Some(k) => if is_u64_text(s.subrange(0, k)) && is_u64_text(s.subrange(k + 1, s.len() as int)) {
            Some((decimal_value(s.subrange(0, k)), decimal_value(s.subrange(k + 1, s.len() as int))))
        } else {
            None
        },
    }
}

/// Reading the low `k` hexadecimal digits of `v` gives `v` modulo `16^k`.
pub proof fn lemma_hex_round_trip(v: nat, k: nat)
    ensures
        hex_digits(v, k).len() == k,
        all_hex(hex_digits(v, k)),
        hex_value(hex_digits(v, k)) == v % pow16(k),
    decreases k,
{
    if k == 0 {
        assert(v % 1 == 0);
    } else {
        lemma_hex_round_trip(v / 16, (k - 1) as nat);
        let d = hex_digits(v, k);
        let c = digit_char(v % 16);
        assert(d.drop_last() == hex_digits(v / 16, (k - 1) as nat));
        assert(d.last() == c);
        assert(hex_digit_value(c) == v % 16);
        assert(is_hex_digit(c));
        assert(hex_value(d) == hex_value(d.drop_last()) * 16 + hex_digit_value(d.last()));
        assert forall|i: int| 0 <= i < d.len() implies is_hex_digit(#[trigger] d[i]) by {
            if i < d.len() - 1 {
                assert(d[i] == d.drop_last()[i]);
            }
        }
        lemma_pow16_mono(0, (k - 1) as nat);
        vstd::arithmetic::div_mod::lemma_mod_breakdown(v as int, 16, pow16((k - 1) as nat) as int);
    }
}

/// A UUID's text reads back as that UUID.
pub proof fn lemma_uuid_round_trip(v: u128)
    ensures
        is_uuid_text(uuid_text(v)),
        uuid_of_text(uuid_text(v)) == Some(v as nat),
{
    let d = hex_digits(v as nat, 32);
    lemma_hex_round_trip(v as nat, 32);
    reveal_with_fuel(pow16, 33);
    assert(pow16(32) == 0x1_0000_0000_0000_0000_0000_0000_0000_0000);
    let t = uuid_text(v);
    assert(uuid_digits(t) =~= d);
    assert forall|i: int| 0 <= i < 36 implies if i == 8 || i == 13 || i == 18 || i == 23 {
        t[i] == '-'
    } else {
        is_hex_digit(#[trigger] t[i])
    } by {
        if i < 8 {
            assert(t[i] == d[i]);
        } else if 8 < i < 13 {
            assert(t[i] == d[i - 1]);
        } else if 13 < i < 18 {
            assert(t[i] == d[i - 2]);
        } else if 18 < i < 23 {
            assert(t[i] == d[i - 3]);
        } else if 23 < i {
            assert(t[i] == d[i - 4]);
        }
    }
}

/// The first colon after a run of digits is the one that ends it.
proof fn lemma_colon_after_digits(s: Seq<char>, i: int, k: int)
    requires
        0 <= i <= k < s.len(),
        s[k] == ':',
        forall|j: int| i <= j < k ==> is_decimal_digit(#[trigger] s[j]),
    ensures
        colon_from(s, i) == Some(k),
    decreases k - i,
{
    if i < k {
        lemma_colon_after_digits(s, i + 1, k);
    }
}

/// A version's text reads back as that version.
pub proof fn lemma_version_round_trip(seconds: u64, nanoseconds: u32)
    ensures
        version_of_text(version_text(seconds as nat, nanoseconds as nat)) == Some(
            (seconds as nat, nanoseconds as nat),
        ),
{
    let a = decimal(seconds as nat);
    let b = decimal(nanoseconds as nat);
    let t = version_text(seconds as nat, nanoseconds as nat);
    lemma_decimal_round_trip(seconds as nat);
    lemma_decimal_round_trip(nanoseconds as nat);
    assert forall|j: int| 0 <= j < a.len() implies is_decimal_digit(#[trigger] t[j]) by {
        assert(t[j] == a[j]);
    }
    lemma_colon_after_digits(t, 0, a.len() as int);
    assert(t.subrange(0, a.len() as int) =~= a);
    assert(t.subrange(a.len() as int + 1, t.len() as int) =~= b);
}

/// Appends the range `lo..hi` of `s`.
fn push_range(out: &mut Vec<char>, s: &Vec<char>, lo: usize, hi: usize)
    requires
        lo <= hi <= s@.len(),
    ensures
        final(out)@ == old(out)@ + s@.subrange(lo as int, hi as int),
{
    let mut i: usize = lo;
    while i < hi
        invariant
            lo <= i <= hi <= s@.len(),
            out@ == old(out)@ + s@.subrange(lo as int, i as int),
        decreases hi - i,
    {
        out.push(s[i]);
        i = i + 1;
        proof {
            assert(out@ =~= old(out)@ + s@.subrange(lo as int, i as int));
        }
    }
}

/// Appends the low `k` hexadecimal digits of `v`.
fn push_hex(out: &mut Vec<char>, v: u128, k: usize)
    ensures
        final(out)@ == old(out)@ + hex_digits(v as nat, k as nat),
    decreases k,
{
    if k > 0 {
        push_hex(out, v / 16, k - 1);
        out.push(digit((v % 16) as u8));
        proof {
            assert(final(out)@ =~= old(out)@ + hex_digits(v as nat, k as nat));
        }
    } else {
        proof {
            assert(final(out)@ =~= old(out)@ + hex_digits(v as nat, k as nat));
        }
    }
}

/// The hyphenated lower-case text of a UUID.
pub fn uuid_to_text(v: u128) -> (r: String)
    ensures
        r@ == uuid_text(v),
{
    let mut d: Vec<char> = Vec::new();
    push_hex(&mut d, v, 32);
    proof {
        lemma_hex_round_trip(v as nat, 32);
        assert(d@ =~= hex_digits(v as nat, 32));
    }
    let mut out: Vec<char> = Vec::new();
    push_range(&mut out, &d, 0, 8);
    out.push('-');
    push_range(&mut out, &d, 8, 12);
    out.push('-');
    push_range(&mut out, &d, 12, 16);
    out.push('-');
    push_range(&mut out, &d, 16, 20);
    out.push('-');
    push_range(&mut out, &d, 20, 32);
    proof {
        assert(out@ =~= uuid_text(v));
    }
    string_of(&out)
}

/// Reads a hyphenated lower-case UUID text.
pub fn uuid_from_text(s: &str) -> (r: Option<u128>)
    ensures
        r is Some <==> uuid_of_text(s@) is Some,
        r matches Some(v) ==> uuid_of_text(s@) == Some(v as nat),
{
    let c = chars_of(s);
    if c.len() != 36 {
        return None;
    }
    let mut i: usize = 0;
    while i < 36
        invariant
            c@ == s@,
            c@.len() == 36,
            i <= 36,
            forall|j: int|
                0 <= j < i ==> if j == 8 || j == 13 || j == 18 || j == 23 {
                    c@[j] == '-'
                } else {
                    is_hex_digit(#[trigger] c@[j])
                },
        decreases 36 - i,
    {
        let x = c[i];
        if i == 8 || i == 13 || i == 18 || i == 23 {
            if x != '-' {
                return None;
            }
        } else if !(('0' <= x && x <= '9') || ('a' <= x && x <= 'f')) {
            return None;
        }
        i = i + 1;
    }
    let mut d: Vec<char> = Vec::new();
    push_range(&mut d, &c, 0, 8);
    push_range(&mut d, &c, 9, 13);
    push_range(&mut d, &c, 14, 18);
    push_range(&mut d, &c, 19, 23);
    push_range(&mut d, &c, 24, 36);
    proof {
        assert(d@ =~= uuid_digits(s@));
        assert(all_hex(d@));
    }
    Some(hex_to_u128(&d))
}

/// The value of at most 32 hexadecimal digits.
fn hex_to_u128(d: &Vec<char>) -> (r: u128)
    requires
        d@.len() <= 32,
        all_hex(d@),
    ensures
        r as nat == hex_value(d@),
{
    proof {
        reveal_with_fuel(pow16, 33);
        assert(pow16(32) == 0x1_0000_0000_0000_0000_0000_0000_0000_0000);
    }
    let mut acc: u128 = 0;
    let mut i: usize = 0;
    while i < d.len()
        invariant
            i <= d@.len() <= 32,
            all_hex(d@),
            acc as nat == hex_value(d@.subrange(0, i as int)),
            acc < pow16(i as nat),
            pow16(32) == 0x1_0000_0000_0000_0000_0000_0000_0000_0000,
        decreases d@.len() - i,
    {
        let x = d[i];
        assert(is_hex_digit(x));
        let v: u128 = if x <= '9' {
            (x as u32 - '0' as u32) as u128
        } else {
            (x as u32 - 'a' as u32 + 10) as u128
        };
        proof {
            let p = d@.subrange(0, i + 1);
            assert(p.drop_last() =~= d@.subrange(0, i as int));
            assert(p.last() == x);
            lemma_pow16_mono(i as nat + 1, 32);
            assert(acc * 16 + v < pow16(i as nat + 1)) by (nonlinear_arith)
                requires
                    acc < pow16(i as nat),
                    v < 16,
                    pow16(i as nat + 1) == 16 * pow16(i as nat),
            ;
        }
        acc = acc * 16 + v;
        i = i + 1;
    }
    proof {
        assert(d@.subrange(0, d@.len() as int) =~= d@);
    }
    acc
}

proof fn lemma_pow16_mono(a: nat, b: nat)
    requires
        a <= b,
    ensures
        pow16(a) <= pow16(b),
    decreases b - a,
{
    if a < b {
        lemma_pow16_mono(a, (b - 1) as nat);
    }
}

/// The text of a version: seconds, a colon, nanoseconds.
pub fn version_to_text(seconds: u64, nanoseconds: u32) -> (r: String)
    ensures
        r@ == version_text(seconds as nat, nanoseconds as nat),
{
    let mut out: Vec<char> = Vec::new();
    push_decimal(&mut out, seconds);
    out.push(':');
    push_decimal(&mut out, nanoseconds as u64);
    proof {
        assert(out@ =~= version_text(seconds as nat, nanoseconds as nat));
    }
    string_of(&out)
}

/// Reads a version text: seconds and nanoseconds around the first colon.
pub fn version_from_text(s: &str) -> (r: Option<(u64, u64)>)
    ensures
        r is Some <==> version_of_text(s@) is Some,
        r matches Some((a, b)) ==> version_of_text(s@) == Some((a as nat, b as nat)),
{
    let c = chars_of(s);
    let mut k: usize = 0;
    while k < c.len()
        invariant
            c@ == s@,
            k <= c@.len(),
            colon_from(c@, 0) == colon_from(c@, k as int),
        ensures
            k <= c@.len(),
            colon_from(c@, 0) == colon_from(c@, k as int),
            k < c@.len() ==> c@[k as int] == ':',
        decreases c@.len() - k,
    {
        if c[k] == ':' {
            break;
        }
        k = k + 1;
    }
    if k == c.len() {
        return None;
    }
    match (parse_u64(&c, 0, k), parse_u64(&c, k + 1, c.len())) {
        (Some(a), Some(b)) => Some((a, b)),
        _ => None,
    }
}

/// The characters of `s`, in order.
pub(crate) fn chars_of(s: &str) -> (r: Vec<char>)
    ensures
        r@ == s@,
{
    broadcast use vstd::string::axiom_spec_iter;

    let mut out: Vec<char> = Vec::new();
    for c in it: s.chars()
        invariant
            it.seq() == s@,
            out@ == s@.subrange(0, it.index() as int),
    {
        out.push(c);
        proof {
            assert(out@ =~= s@.subrange(0, it.index() + 1));
        }
    }
    proof {
        assert(out@ =~= s@);
    }
    out
}

/// Relies on std's `String: FromIterator<char>`: the string of the characters.
#[verifier::external_body]
pub(crate) fn string_of(chars: &Vec<char>) -> (r: String)
    ensures
        r@ == chars@,
{
    chars.iter().collect()
}

} // verus!
