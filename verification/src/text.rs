use vstd::prelude::*;

verus! {

// ---------------------------------------------------------------------------
// Building strings
// ---------------------------------------------------------------------------

/// Appends one character to a string (`String::push`).
#[verifier::external_body]
fn push_char(s: &mut String, c: char)
    ensures
        final(s)@ == old(s)@.push(c),
{
    s.push(c);
}

/// The characters of a string slice, in order.
pub fn chars_of(s: &str) -> (v: Vec<char>)
    ensures
        v@ == s@,
{
    let mut v: Vec<char> = Vec::new();
    for c in it: s.chars()
        invariant
            v@ == it.seq().take(it.index() as int),
    {
        v.push(c);
    }
    v
}

/// Builds a string from a sequence of characters.
pub fn string_from_chars(cs: &[char]) -> (r: String)
    ensures
        r@ == cs@,
{
    let mut r = String::new();
    let mut i: usize = 0;
    while i < cs.len()
        invariant
            i <= cs.len(),
            r@ == cs@.take(i as int),
        decreases cs.len() - i,
    {
        push_char(&mut r, cs[i]);
        assert(cs@.take(i + 1) == cs@.take(i as int).push(cs@[i as int]));
        i = i + 1;
    }
    assert(cs@.take(cs.len() as int) == cs@);
    r
}

/// Appends all characters of `t` to `v`.
pub fn extend_chars(v: &mut Vec<char>, t: &[char])
    ensures
        final(v)@ == old(v)@ + t@,
{
    let mut i: usize = 0;
    while i < t.len()
        invariant
            i <= t.len(),
            v@ == old(v)@ + t@.take(i as int),
        decreases t.len() - i,
    {
        v.push(t[i]);
        assert(t@.take(i + 1) == t@.take(i as int).push(t@[i as int]));
        i = i + 1;
    }
    assert(t@.take(t.len() as int) == t@);
}

/// Appends all characters of the string slice `t` to `v`.
pub fn extend_str(v: &mut Vec<char>, t: &str)
    ensures
        final(v)@ == old(v)@ + t@,
{
    let cs = chars_of(t);
    extend_chars(v, cs.as_slice());
}

/// Concatenation of a string slice and a string slice into a new string.
pub fn concat2(a: &str, b: &str) -> (r: String)
    ensures
        r@ == a@ + b@,
{
    let mut v: Vec<char> = Vec::new();
    extend_str(&mut v, a);
    extend_str(&mut v, b);
    string_from_chars(v.as_slice())
}

/// A copy of a string slice as an owned string.
pub fn owned(s: &str) -> (r: String)
    ensures
        r@ == s@,
{
    String::from_str(s)
}

// ---------------------------------------------------------------------------
// Numbers as text
// ---------------------------------------------------------------------------

/// The lower-case hexadecimal digit of a value below 16.
pub open spec fn digit_char(d: nat) -> char {
    if d < 10 {
        ((d + 48) as u8) as char
    } else {
        ((d - 10 + 97) as u8) as char
    }
}

/// Digits of `n` in base `b` (most significant first, no leading zeros, "0" for zero).
pub open spec fn digits(n: nat, b: nat) -> Seq<char>
    recommends
        b >= 2,
    decreases n,
{
    if b < 2 || n < b {
        seq![digit_char(n % 16)]
    } else {
        proof {
            assert(n / b < n) by (nonlinear_arith)
                requires
                    b >= 2,
                    n >= b,
            ;
        }
        digits(n / b, b).push(digit_char(n % b))
    }
}

/// Decimal text of `n` (what `{}` prints for an unsigned integer).
pub open spec fn decimal(n: nat) -> Seq<char> {
    digits(n, 10)
}

/// Lower-case hexadecimal text of `n` (what `{:x}` prints).
pub open spec fn hex(n: nat) -> Seq<char> {
    digits(n, 16)
}

/// `s` left-padded with '0' up to width `w` (what `{:0w}` does to digits).
pub open spec fn pad_zeros(s: Seq<char>, w: nat) -> Seq<char> {
    if s.len() >= w {
        s
    } else {
        Seq::new((w - s.len()) as nat, |i: int| '0') + s
    }
}

/// `16^k`.
pub open spec fn pow16(k: nat) -> nat
    decreases k,
{
    if k == 0 {
        1
    } else {
        16 * pow16((k - 1) as nat)
    }
}

proof fn lemma_digit_char_injective(a: nat, b: nat)
    requires
        a < 16,
        b < 16,
        digit_char(a) == digit_char(b),
    ensures
        a == b,
{
    let ca = digit_char(a) as u32;
    let cb = digit_char(b) as u32;
    if a < 10 {
        assert(ca == a + 48);
    } else {
        assert(ca == a - 10 + 97);
    }
    if b < 10 {
        assert(cb == b + 48);
    } else {
        assert(cb == b - 10 + 97);
    }
}

/// Hexadecimal digits are never empty, and a positive value starts with a
/// non-zero digit.
pub proof fn lemma_hex_shape(n: nat)
    ensures
        hex(n).len() >= 1,
        n >= 16 ==> hex(n).len() >= 2,
        n >= 1 ==> hex(n)[0] != '0',
    decreases n,
{
    if n < 16 {
        assert(n % 16 == n);
        if n >= 1 {
            if digit_char(n) == '0' {
                assert(digit_char(0) == '0');
                lemma_digit_char_injective(n, 0);
            }
        }
    } else {
        lemma_hex_shape(n / 16);
        assert(hex(n) == hex(n / 16).push(digit_char(n % 16)));
        assert(hex(n)[0] == hex(n / 16)[0]);
    }
}

/// A value below `16^k` has at most `k` hexadecimal digits.
pub proof fn lemma_hex_len_bound(n: nat, k: nat)
    requires
        k >= 1,
        n < pow16(k),
    ensures
        hex(n).len() <= k,
    decreases k,
{
    if n >= 16 {
        assert(k >= 2) by {
            if k == 1 {
                assert(pow16(1) == 16 * pow16(0));
            }
        }
        assert(n / 16 < pow16((k - 1) as nat));
        lemma_hex_len_bound(n / 16, (k - 1) as nat);
        assert(hex(n) == hex(n / 16).push(digit_char(n % 16)));
    }
}

/// Different values have different hexadecimal digits.
pub proof fn lemma_hex_injective(a: nat, b: nat)
    requires
        hex(a) == hex(b),
    ensures
        a == b,
    decreases a,
{
    lemma_hex_shape(a);
    lemma_hex_shape(b);
    if a < 16 {
        if b >= 16 {
            assert(false);
        }
        assert(a % 16 == a && b % 16 == b);
        assert(hex(a)[0] == digit_char(a));
        lemma_digit_char_injective(a, b);
    } else {
        if b < 16 {
            assert(false);
        }
        assert(hex(a) == hex(a / 16).push(digit_char(a % 16)));
        assert(hex(b) == hex(b / 16).push(digit_char(b % 16)));
        assert(hex(a / 16) == hex(a).drop_last());
        assert(hex(b / 16) == hex(b).drop_last());
        lemma_hex_injective(a / 16, b / 16);
        assert(hex(a).last() == digit_char(a % 16));
        assert(hex(b).last() == digit_char(b % 16));
        lemma_digit_char_injective(a % 16, b % 16);
    }
}

/// Zero-padded hexadecimal text determines the value.
pub proof fn lemma_padded_hex_injective(a: nat, b: nat, w: nat)
    requires
        pad_zeros(hex(a), w) == pad_zeros(hex(b), w),
    ensures
        a == b,
{
    let sa = hex(a);
    let sb = hex(b);
    lemma_hex_shape(a);
    lemma_hex_shape(b);
    let pa = pad_zeros(sa, w);
    let pb = pad_zeros(sb, w);
    if sa.len() >= w && sb.len() >= w {
        lemma_hex_injective(a, b);
    } else if sa.len() < w && sb.len() < w {
        if sa.len() == sb.len() {
            assert(sa =~= pa.skip(w - sa.len()));
            assert(sb =~= pb.skip(w - sb.len()));
            lemma_hex_injective(a, b);
        } else if sa.len() < sb.len() {
            let i = w - sb.len();
            assert(pb[i] == sb[0]);
            assert(pa[i] == '0');
            assert(b == 0);
        } else {
            let i = w - sa.len();
            assert(pa[i] == sa[0]);
            assert(pb[i] == '0');
            assert(a == 0);
        }
    } else if sa.len() >= w {
        assert(pb[0] == '0');
        assert(pa[0] == sa[0]);
        assert(a == 0);
    } else {
        assert(pa[0] == '0');
        assert(pb[0] == sb[0]);
        assert(b == 0);
    }
}

/// A lower-case hexadecimal digit character.
pub open spec fn is_hex_char(c: char) -> bool {
    ('0' <= c && c <= '9') || ('a' <= c && c <= 'f')
}

/// The value of a hexadecimal digit character.
pub open spec fn hex_digit_value(c: char) -> int {
    if (c as int) <= 57 {
        c as int - 48
    } else {
        c as int - 87
    }
}

/// The value of a string of hexadecimal digits.
pub open spec fn hex_value(s: Seq<char>) -> int
    decreases s.len(),
{
    if s.len() == 0 {
        0
    } else {
        hex_value(s.drop_last()) * 16 + hex_digit_value(s.last())
    }
}

/// Every character is a hexadecimal digit.
pub open spec fn all_hex(s: Seq<char>) -> bool {
    forall|i: int| 0 <= i < s.len() ==> is_hex_char(#[trigger] s[i])
}

proof fn lemma_digit_char_value(d: nat)
    requires
        d < 16,
    ensures
        is_hex_char(digit_char(d)),
        hex_digit_value(digit_char(d)) == d,
{
}

/// The hexadecimal text of `n` is made of digits and reads back as `n`.
proof fn lemma_hex_reads_back(n: nat)
    ensures
        all_hex(hex(n)),
        hex_value(hex(n)) == n,
    decreases n,
{
    if n < 16 {
        assert(n % 16 == n);
        lemma_digit_char_value(n);
        let h = hex(n);
        assert(h == seq![digit_char(n)]);
        assert(h.drop_last() =~= Seq::<char>::empty());
        assert(h.last() == digit_char(n));
        assert(hex_value(h) == hex_value(h.drop_last()) * 16 + hex_digit_value(h.last()));
        assert(hex_value(h.drop_last()) == 0);
    } else {
        lemma_hex_reads_back(n / 16);
        lemma_digit_char_value(n % 16);
        let h = hex(n);
        assert(h == hex(n / 16).push(digit_char(n % 16)));
        assert(h.drop_last() == hex(n / 16));
        assert(h.last() == digit_char(n % 16));
        assert(hex_value(h) == hex_value(h.drop_last()) * 16 + hex_digit_value(h.last()));
        assert(n == (n / 16) * 16 + n % 16);
        assert forall|i: int| 0 <= i < h.len() implies is_hex_char(#[trigger] h[i]) by {
            if i < h.len() - 1 {
                assert(h[i] == hex(n / 16)[i]);
            }
        }
    }
}

proof fn lemma_zeros_value(k: nat)
    ensures
        all_hex(Seq::new(k, |i: int| '0')),
        hex_value(Seq::new(k, |i: int| '0')) == 0,
    decreases k,
{
    if k > 0 {
        lemma_zeros_value((k - 1) as nat);
        assert(Seq::new(k, |i: int| '0').drop_last() =~= Seq::new((k - 1) as nat, |i: int| '0'));
    }
}

proof fn lemma_zeros_then_value(z: Seq<char>, s: Seq<char>)
    requires
        all_hex(z),
        hex_value(z) == 0,
    ensures
        hex_value(z + s) == hex_value(s),
    decreases s.len(),
{
    if s.len() == 0 {
        assert(z + s =~= z);
    } else {
        lemma_zeros_then_value(z, s.drop_last());
        assert((z + s).drop_last() =~= z + s.drop_last());
        assert((z + s).last() == s.last());
    }
}

/// Zero-padded hexadecimal text is made of digits and reads back as `n`.
pub proof fn lemma_padded_hex_reads_back(n: nat, w: nat)
    ensures
        all_hex(pad_zeros(hex(n), w)),
        hex_value(pad_zeros(hex(n), w)) == n,
{
    lemma_hex_reads_back(n);
    let h = hex(n);
    if h.len() < w {
        let z = Seq::new((w - h.len()) as nat, |i: int| '0');
        lemma_zeros_value((w - h.len()) as nat);
        lemma_zeros_then_value(z, h);
        let p = z + h;
        assert(pad_zeros(h, w) == p);
        assert forall|i: int| 0 <= i < p.len() implies is_hex_char(#[trigger] p[i]) by {
            if i < z.len() {
                assert(p[i] == z[i]);
            } else {
                assert(p[i] == h[i - z.len()]);
            }
        }
    }
}

/// Hexadecimal digits are worth less than `16^len`.
proof fn lemma_hex_value_bound(s: Seq<char>)
    requires
        all_hex(s),
    ensures
        0 <= hex_value(s) < pow16(s.len()),
    decreases s.len(),
{
    if s.len() > 0 {
        assert(all_hex(s.drop_last())) by {
            assert forall|i: int| 0 <= i < s.drop_last().len() implies is_hex_char(
                #[trigger] s.drop_last()[i],
            ) by {
                assert(s.drop_last()[i] == s[i]);
            }
        }
        lemma_hex_value_bound(s.drop_last());
        assert(is_hex_char(s[s.len() - 1]));
    }
}

/// The leading digit of a hexadecimal string weighs `16^(len - 1)`.
proof fn lemma_hex_value_front(s: Seq<char>)
    requires
        s.len() > 0,
        all_hex(s),
    ensures
        hex_value(s) == hex_digit_value(s[0]) * pow16((s.len() - 1) as nat) + hex_value(
            s.drop_first(),
        ),
        all_hex(s.drop_first()),
    decreases s.len(),
{
    assert forall|i: int| 0 <= i < s.drop_first().len() implies is_hex_char(
        #[trigger] s.drop_first()[i],
    ) by {
        assert(s.drop_first()[i] == s[i + 1]);
    }
    if s.len() == 1 {
        assert(s.drop_last() =~= Seq::<char>::empty());
        assert(s.drop_first() =~= Seq::<char>::empty());
        assert(s.last() == s[0]);
        assert(hex_value(s) == hex_value(s.drop_last()) * 16 + hex_digit_value(s.last()));
        assert(pow16(0) == 1);
        assert(hex_digit_value(s[0]) * 1 == hex_digit_value(s[0]));
    } else {
        let t = s.drop_last();
        assert(all_hex(t)) by {
            assert forall|i: int| 0 <= i < t.len() implies is_hex_char(#[trigger] t[i]) by {
                assert(t[i] == s[i]);
            }
        }
        lemma_hex_value_front(t);
        assert(t[0] == s[0]);
        assert(s.drop_first().drop_last() =~= t.drop_first());
        assert(s.drop_first().last() == s.last());
        let d = hex_digit_value(s[0]);
        let p = pow16((t.len() - 1) as nat);
        let r = hex_value(t.drop_first());
        let c = hex_digit_value(s.last());
        assert(pow16((s.len() - 1) as nat) == 16 * p);
        assert(hex_value(s) == hex_value(t) * 16 + c);
        assert(hex_value(t) == d * p + r);
        assert(hex_value(s.drop_first()) == r * 16 + c);
        assert((d * p + r) * 16 + c == d * (16 * p) + (r * 16 + c)) by (nonlinear_arith);
    }
}

/// Among hexadecimal strings of one length, text order is numeric order.
pub proof fn lemma_hex_order(x: Seq<char>, y: Seq<char>)
    requires
        x.len() == y.len(),
        all_hex(x),
        all_hex(y),
        hex_value(x) < hex_value(y),
    ensures
        text_less(x, y),
    decreases x.len(),
{
    if x.len() == 0 {
        assert(false);
    }
    lemma_hex_value_front(x);
    lemma_hex_value_front(y);
    lemma_hex_value_bound(x.drop_first());
    lemma_hex_value_bound(y.drop_first());
    let dx = hex_digit_value(x[0]);
    let dy = hex_digit_value(y[0]);
    let p = pow16((x.len() - 1) as nat);
    let rx = hex_value(x.drop_first());
    let ry = hex_value(y.drop_first());
    assert(is_hex_char(x[0]) && is_hex_char(y[0]));
    if dx < dy {
        assert((x[0] as int) < (y[0] as int));
    } else if dx == dy {
        assert(x[0] == y[0]);
        assert(rx < ry);
        lemma_hex_order(x.drop_first(), y.drop_first());
    } else {
        assert(dx * p + rx > dy * p + ry) by (nonlinear_arith)
            requires
                dx >= dy + 1,
                p > 0,
                0 <= rx,
                ry < p,
        ;
        assert(false);
    }
}

/// Text order between two strings of one length is kept by anything that
/// follows them.
pub proof fn lemma_text_less_extend(x: Seq<char>, y: Seq<char>, r1: Seq<char>, r2: Seq<char>)
    requires
        x.len() == y.len(),
        text_less(x, y),
    ensures
        text_less(x + r1, y + r2),
    decreases x.len(),
{
    if x.len() > 0 {
        assert((x + r1)[0] == x[0] && (y + r2)[0] == y[0]);
        if x[0] == y[0] {
            assert((x + r1).drop_first() =~= x.drop_first() + r1);
            assert((y + r2).drop_first() =~= y.drop_first() + r2);
            lemma_text_less_extend(x.drop_first(), y.drop_first(), r1, r2);
        }
    }
}

/// A common prefix does not change text order.
pub proof fn lemma_text_less_prefix(p: Seq<char>, a: Seq<char>, b: Seq<char>)
    requires
        text_less(a, b),
    ensures
        text_less(p + a, p + b),
    decreases p.len(),
{
    if p.len() > 0 {
        assert((p + a)[0] == p[0] && (p + b)[0] == p[0]);
        assert((p + a).drop_first() =~= p.drop_first() + a);
        assert((p + b).drop_first() =~= p.drop_first() + b);
        lemma_text_less_prefix(p.drop_first(), a, b);
    } else {
        assert(p + a =~= a);
        assert(p + b =~= b);
    }
}

/// Zero-padded hexadecimal texts of one width sort like their values.
pub proof fn lemma_padded_hex_order(a: nat, b: nat, w: nat)
    requires
        a < b,
        b < pow16(w),
        w >= 1,
    ensures
        text_less(pad_zeros(hex(a), w), pad_zeros(hex(b), w)),
        pad_zeros(hex(a), w).len() == w,
        pad_zeros(hex(b), w).len() == w,
{
    lemma_hex_len_bound(b, w);
    lemma_hex_len_bound(a, w);
    lemma_padded_hex_reads_back(a, w);
    lemma_padded_hex_reads_back(b, w);
    lemma_hex_order(pad_zeros(hex(a), w), pad_zeros(hex(b), w));
}

fn digit_exec(d: u64) -> (c: char)
    requires
        d < 16,
    ensures
        c == digit_char(d as nat),
{
    if d < 10 {
        ((d as u8) + 48) as char
    } else {
        ((d as u8) - 10 + 97) as char
    }
}

/// Appends the base-`b` digits of `n` to `v`.
fn push_digits(v: &mut Vec<char>, n: u64, b: u64)
    requires
        b == 10 || b == 16,
    ensures
        final(v)@ == old(v)@ + digits(n as nat, b as nat),
    decreases n,
{
    if n < b {
        v.push(digit_exec(n));
        assert(digits(n as nat, b as nat) == seq![digit_char(n as nat % 16)]);
        assert((n as nat) % 16 == n as nat);
    } else {
        push_digits(v, n / b, b);
        v.push(digit_exec(n % b));
        assert(old(v)@ + digits(n as nat, b as nat) == old(v)@ + digits((n / b) as nat, b as nat)
            + seq![digit_char((n % b) as nat)]);
    }
}

/// Decimal text of an unsigned integer.
pub fn decimal_chars(n: u64) -> (v: Vec<char>)
    ensures
        v@ == decimal(n as nat),
{
    let mut v: Vec<char> = Vec::new();
    push_digits(&mut v, n, 10);
    v
}

/// Hexadecimal text of an unsigned integer.
pub fn hex_chars(n: u64) -> (v: Vec<char>)
    ensures
        v@ == hex(n as nat),
{
    let mut v: Vec<char> = Vec::new();
    push_digits(&mut v, n, 16);
    v
}

/// Left-pads `digits` with '0' up to width `w`.
pub fn zero_padded(ds: &[char], w: usize) -> (v: Vec<char>)
    ensures
        v@ == pad_zeros(ds@, w as nat),
{
    let mut v: Vec<char> = Vec::new();
    if ds.len() < w {
        let k = w - ds.len();
        let mut i: usize = 0;
        while i < k
            invariant
                i <= k,
                v@ == Seq::new(i as nat, |j: int| '0'),
            decreases k - i,
        {
            v.push('0');
            assert(v@ == Seq::new((i + 1) as nat, |j: int| '0'));
            i = i + 1;
        }
    }
    extend_chars(&mut v, ds);
    proof {
        if ds@.len() >= w {
            assert(v@ == ds@);
        }
    }
    v
}

// ---------------------------------------------------------------------------
// Comparing and searching
// ---------------------------------------------------------------------------

/// Whether two character sequences are equal.
pub fn chars_equal(a: &[char], b: &[char]) -> (r: bool)
    ensures
        r == (a@ == b@),
{
    if a.len() != b.len() {
        return false;
    }
    let mut i: usize = 0;
    while i < a.len()
        invariant
            i <= a.len(),
            a.len() == b.len(),
            forall|j: int| 0 <= j < i ==> a@[j] == b@[j],
        decreases a.len() - i,
    {
        if a[i] != b[i] {
            return false;
        }
        i = i + 1;
    }
    assert(a@ =~= b@);
    true
}

/// Whether two string slices hold the same text.
pub fn str_equal(a: &str, b: &str) -> (r: bool)
    ensures
        r == (a@ == b@),
{
    let x = chars_of(a);
    let y = chars_of(b);
    chars_equal(x.as_slice(), y.as_slice())
}

/// `t` occurs in `s` at position `i`.
pub open spec fn occurs_at(s: Seq<char>, t: Seq<char>, i: int) -> bool {
    0 <= i && i + t.len() <= s.len() && s.subrange(i, i + t.len()) == t
}

/// `s` begins with `t`.
pub open spec fn starts_with(s: Seq<char>, t: Seq<char>) -> bool {
    occurs_at(s, t, 0)
}

/// `s` ends with `t`.
pub open spec fn ends_with(s: Seq<char>, t: Seq<char>) -> bool {
    occurs_at(s, t, s.len() - t.len())
}

/// `t` occurs somewhere in `s`.
pub open spec fn contains_text(s: Seq<char>, t: Seq<char>) -> bool {
    exists|i: int| occurs_at(s, t, i)
}

/// The first position at or after `from` where `t` occurs in `s`.
pub open spec fn find_from(s: Seq<char>, t: Seq<char>, from: int) -> Option<int>
    decreases s.len() + 1 - from,
{
    if from < 0 || from + t.len() > s.len() {
        None
    } else if occurs_at(s, t, from) {
        Some(from)
    } else {
        find_from(s, t, from + 1)
    }
}

/// `find_from` gives the first occurrence at or after `from`, if any.
pub proof fn lemma_find_from(s: Seq<char>, t: Seq<char>, from: int)
    requires
        0 <= from,
    ensures
        match find_from(s, t, from) {
            Some(i) => from <= i && occurs_at(s, t, i) && forall|j: int|
                from <= j < i ==> !occurs_at(s, t, j),
            None => forall|j: int| from <= j ==> !occurs_at(s, t, j),
        },
    decreases s.len() + 1 - from,
{
    if from + t.len() > s.len() {
    } else if occurs_at(s, t, from) {
    } else {
        lemma_find_from(s, t, from + 1);
    }
}

/// Whether `t` occurs in `s` at position `i`.
pub fn occurs_at_exec(s: &[char], t: &[char], i: usize) -> (r: bool)
    ensures
        r == occurs_at(s@, t@, i as int),
{
    if i > s.len() || t.len() > s.len() - i {
        return false;
    }
    let mut j: usize = 0;
    while j < t.len()
        invariant
            j <= t.len(),
            i + t.len() <= s.len(),
            forall|k: int| 0 <= k < j ==> s@[i + k] == t@[k],
        decreases t.len() - j,
    {
        if s[i + j] != t[j] {
            assert(s@.subrange(i as int, i + t.len())[j as int] != t@[j as int]);
            return false;
        }
        j = j + 1;
    }
    assert(s@.subrange(i as int, i + t.len()) =~= t@);
    true
}

/// The first position at or after `from` where `t` occurs in `s`.
pub fn find_exec(s: &[char], t: &[char], from: usize) -> (r: Option<usize>)
    ensures
        match r {
            Some(i) => find_from(s@, t@, from as int) == Some(i as int),
            None => find_from(s@, t@, from as int) is None,
        },
{
    if t.len() == 0 && from <= s.len() {
        assert(occurs_at(s@, t@, from as int)) by {
            assert(s@.subrange(from as int, from as int) =~= t@);
        }
        return Some(from);
    }
    let mut i = from;
    while i < s.len() && t.len() <= s.len() - i
        invariant
            from <= i,
            find_from(s@, t@, from as int) == find_from(s@, t@, i as int),
        decreases s.len() + 1 - i,
    {
        if occurs_at_exec(s, t, i) {
            return Some(i);
        }
        i = i + 1;
    }
    None
}

/// Whether `t` occurs in `s`.
pub fn contains_exec(s: &[char], t: &[char]) -> (r: bool)
    ensures
        r == contains_text(s@, t@),
{
    let r = find_exec(s, t, 0);
    proof {
        lemma_find_from(s@, t@, 0);
    }
    r.is_some()
}

/// Whether `s` starts with `t`.
pub fn starts_with_exec(s: &[char], t: &[char]) -> (r: bool)
    ensures
        r == starts_with(s@, t@),
{
    occurs_at_exec(s, t, 0)
}

/// Whether `s` ends with `t`.
pub fn ends_with_exec(s: &[char], t: &[char]) -> (r: bool)
    ensures
        r == ends_with(s@, t@),
{
    if t.len() > s.len() {
        return false;
    }
    occurs_at_exec(s, t, s.len() - t.len())
}

/// Copy of the characters `s[from..to]`.
pub fn slice_chars(s: &[char], from: usize, to: usize) -> (v: Vec<char>)
    requires
        from <= to <= s.len(),
    ensures
        v@ == s@.subrange(from as int, to as int),
{
    let mut v: Vec<char> = Vec::new();
    let mut i = from;
    while i < to
        invariant
            from <= i <= to <= s.len(),
            v@ == s@.subrange(from as int, i as int),
        decreases to - i,
    {
        v.push(s[i]);
        assert(s@.subrange(from as int, i + 1) == s@.subrange(from as int, i as int).push(s@[i as int]));
        i = i + 1;
    }
    v
}

// ---------------------------------------------------------------------------
// Case and white space
// ---------------------------------------------------------------------------

/// ASCII upper-case letters mapped to lower case; other characters unchanged.
pub open spec fn lower_char(c: char) -> char {
    if 'A' <= c && c <= 'Z' {
        ((c as u32 + 32) as u8) as char
    } else {
        c
    }
}

/// `to_ascii_lowercase` of a text.
pub open spec fn ascii_lower(s: Seq<char>) -> Seq<char> {
    s.map_values(|c: char| lower_char(c))
}

pub fn lower_char_exec(c: char) -> (r: char)
    ensures
        r == lower_char(c),
{
    if 'A' <= c && c <= 'Z' {
        ((c as u8) + 32) as char
    } else {
        c
    }
}

/// `to_ascii_lowercase` of a character sequence.
pub fn ascii_lower_exec(s: &[char]) -> (v: Vec<char>)
    ensures
        v@ == ascii_lower(s@),
{
    let mut v: Vec<char> = Vec::new();
    let mut i: usize = 0;
    while i < s.len()
        invariant
            i <= s.len(),
            v@ == ascii_lower(s@.take(i as int)),
        decreases s.len() - i,
    {
        v.push(lower_char_exec(s[i]));
        assert(ascii_lower(s@.take(i + 1)) == ascii_lower(s@.take(i as int)).push(lower_char(s@[i as int])));
        i = i + 1;
    }
    assert(s@.take(s.len() as int) == s@);
    v
}

/// The Unicode `White_Space` property, as `char::is_whitespace` tests it.
pub open spec fn is_space(c: char) -> bool {
    let u = c as u32;
    (0x09 <= u && u <= 0x0D) || u == 0x20 || u == 0x85 || u == 0xA0 || u == 0x1680
        || (0x2000 <= u && u <= 0x200A) || u == 0x2028 || u == 0x2029 || u == 0x202F
        || u == 0x205F || u == 0x3000
}

pub fn is_space_exec(c: char) -> (r: bool)
    ensures
        r == is_space(c),
{
    let u = c as u32;
    (0x09 <= u && u <= 0x0D) || u == 0x20 || u == 0x85 || u == 0xA0 || u == 0x1680
        || (0x2000 <= u && u <= 0x200A) || u == 0x2028 || u == 0x2029 || u == 0x202F
        || u == 0x205F || u == 0x3000
}

/// `s` without leading white space.
pub open spec fn trim_start(s: Seq<char>) -> Seq<char>
    decreases s.len(),
{
    if s.len() > 0 && is_space(s[0]) {
        trim_start(s.drop_first())
    } else {
        s
    }
}

/// `s` without trailing white space.
pub open spec fn trim_end(s: Seq<char>) -> Seq<char>
    decreases s.len(),
{
    if s.len() > 0 && is_space(s.last()) {
        trim_end(s.drop_last())
    } else {
        s
    }
}

/// `str::trim`: `s` without leading and trailing white space.
pub open spec fn trim(s: Seq<char>) -> Seq<char> {
    trim_end(trim_start(s))
}

/// `str::trim` of a character sequence.
pub fn trim_exec(s: &[char]) -> (v: Vec<char>)
    ensures
        v@ == trim(s@),
{
    let mut a: usize = 0;
    assert(s@.subrange(0, s@.len() as int) == s@);
    while a < s.len() && is_space_exec(s[a])
        invariant
            a <= s.len(),
            trim_start(s@) == trim_start(s@.subrange(a as int, s@.len() as int)),
        decreases s.len() - a,
    {
        assert(s@.subrange(a as int, s@.len() as int).drop_first() == s@.subrange(a + 1, s@.len() as int));
        a = a + 1;
    }
    let mut b: usize = s.len();
    while b > a && is_space_exec(s[b - 1])
        invariant
            a <= b <= s.len(),
            trim_start(s@) == s@.subrange(a as int, s@.len() as int),
            trim(s@) == trim_end(s@.subrange(a as int, b as int)),
        decreases b - a,
    {
        assert(s@.subrange(a as int, b as int).drop_last() == s@.subrange(a as int, b - 1));
        b = b - 1;
    }
    slice_chars(s, a, b)
}

/// `str::trim` of a string slice, as characters.
pub fn str_trim(s: &str) -> (v: Vec<char>)
    ensures
        v@ == trim(s@),
{
    let cs = chars_of(s);
    trim_exec(cs.as_slice())
}

/// `s` without any trailing occurrences of `c` (`trim_end_matches` with a char).
pub open spec fn trim_end_char(s: Seq<char>, c: char) -> Seq<char>
    decreases s.len(),
{
    if s.len() > 0 && s.last() == c {
        trim_end_char(s.drop_last(), c)
    } else {
        s
    }
}

pub fn trim_end_char_exec(s: &[char], c: char) -> (v: Vec<char>)
    ensures
        v@ == trim_end_char(s@, c),
{
    let mut b: usize = s.len();
    assert(s@.take(b as int) == s@);
    while b > 0 && s[b - 1] == c
        invariant
            b <= s.len(),
            trim_end_char(s@, c) == trim_end_char(s@.take(b as int), c),
        decreases b,
    {
        assert(s@.take(b as int).drop_last() == s@.take(b - 1));
        b = b - 1;
    }
    slice_chars(s, 0, b)
}

// ---------------------------------------------------------------------------
// Order
// ---------------------------------------------------------------------------

/// Lexicographic order of texts by code point; `String`'s `<` is this order.
pub open spec fn text_less(a: Seq<char>, b: Seq<char>) -> bool
    decreases a.len(),
{
    if a.len() == 0 {
        b.len() > 0
    } else if b.len() == 0 {
        false
    } else if a[0] != b[0] {
        (a[0] as int) < (b[0] as int)
    } else {
        text_less(a.drop_first(), b.drop_first())
    }
}

/// No text comes before itself.
pub proof fn lemma_text_less_irreflexive(a: Seq<char>)
    ensures
        !text_less(a, a),
    decreases a.len(),
{
    if a.len() > 0 {
        lemma_text_less_irreflexive(a.drop_first());
    }
}

/// Text order is transitive.
pub proof fn lemma_text_less_transitive(a: Seq<char>, b: Seq<char>, c: Seq<char>)
    requires
        text_less(a, b),
        text_less(b, c),
    ensures
        text_less(a, c),
    decreases a.len(),
{
    if a.len() > 0 && b.len() > 0 && c.len() > 0 && a[0] == b[0] && b[0] == c[0] {
        lemma_text_less_transitive(a.drop_first(), b.drop_first(), c.drop_first());
    }
}

/// Of two different texts, one comes first.
pub proof fn lemma_text_less_total(a: Seq<char>, b: Seq<char>)
    ensures
        a == b || text_less(a, b) || text_less(b, a),
    decreases a.len(),
{
    if a.len() > 0 && b.len() > 0 {
        if a[0] == b[0] {
            lemma_text_less_total(a.drop_first(), b.drop_first());
            if a.drop_first() == b.drop_first() {
                assert(a =~= seq![a[0]] + a.drop_first());
                assert(b =~= seq![b[0]] + b.drop_first());
            }
        } else {
            assert((a[0] as int) != (b[0] as int));
        }
    } else if a.len() == 0 && b.len() == 0 {
        assert(a =~= b);
    }
}

/// Of two texts, at most one comes first.
pub proof fn lemma_text_less_asymmetric(a: Seq<char>, b: Seq<char>)
    requires
        text_less(a, b),
    ensures
        !text_less(b, a),
{
    if text_less(b, a) {
        lemma_text_less_transitive(a, b, a);
        lemma_text_less_irreflexive(a);
    }
}

/// Whether `a` comes before `b` in lexicographic code point order.
pub fn text_less_exec(a: &[char], b: &[char]) -> (r: bool)
    ensures
        r == text_less(a@, b@),
{
    let mut i: usize = 0;
    assert(a@.skip(0) == a@);
    assert(b@.skip(0) == b@);
    while i < a.len() && i < b.len() && a[i] == b[i]
        invariant
            i <= a.len(),
            i <= b.len(),
            text_less(a@, b@) == text_less(a@.skip(i as int), b@.skip(i as int)),
        decreases a.len() - i,
    {
        assert(a@.skip(i as int).drop_first() == a@.skip(i + 1));
        assert(b@.skip(i as int).drop_first() == b@.skip(i + 1));
        i = i + 1;
    }
    if i == a.len() {
        i < b.len()
    } else if i == b.len() {
        false
    } else {
        a[i] < b[i]
    }
}

/// Whether the text of `a` comes before the text of `b`.
pub fn str_less(a: &str, b: &str) -> (r: bool)
    ensures
        r == text_less(a@, b@),
{
    let x = chars_of(a);
    let y = chars_of(b);
    text_less_exec(x.as_slice(), y.as_slice())
}

/// The parts of `s` around the first occurrence of `pat`, if any
/// (`str::split_once`).
pub open spec fn split_once(s: Seq<char>, pat: Seq<char>) -> Option<(Seq<char>, Seq<char>)> {
    match find_from(s, pat, 0) {
        Some(i) => Some((s.take(i), s.skip(i + pat.len()))),
        None => None,
    }
}

/// `str::split_once` on character sequences.
pub fn split_once_exec(s: &[char], pat: &[char]) -> (r: Option<(Vec<char>, Vec<char>)>)
    ensures
        match r {
            Some((a, b)) => split_once(s@, pat@) == Some((a@, b@)),
            None => split_once(s@, pat@) is None,
        },
{
    let n = s.len();
    match find_exec(s, pat, 0) {
        Some(i) => {
            proof {
                lemma_find_from(s@, pat@, 0);
                assert(occurs_at(s@, pat@, i as int));
            }
            let a = slice_chars(s, 0, i);
            let b = slice_chars(s, i + pat.len(), s.len());
            assert(a@ == s@.take(i as int));
            assert(b@ == s@.skip(i + pat@.len()));
            Some((a, b))
        },
        None => None,
    }
}

/// `s` without the prefix `t`, if it starts with it (`str::strip_prefix`).
pub open spec fn strip_prefix(s: Seq<char>, t: Seq<char>) -> Option<Seq<char>> {
    if starts_with(s, t) {
        Some(s.skip(t.len() as int))
    } else {
        None
    }
}

/// `str::strip_prefix` on character sequences.
pub fn strip_prefix_exec(s: &[char], t: &[char]) -> (r: Option<Vec<char>>)
    ensures
        match r {
            Some(a) => strip_prefix(s@, t@) == Some(a@),
            None => strip_prefix(s@, t@) is None,
        },
{
    if starts_with_exec(s, t) {
        let a = slice_chars(s, t.len(), s.len());
        assert(a@ == s@.skip(t@.len() as int));
        Some(a)
    } else {
        None
    }
}

/// The pieces of `s` between the occurrences of `pat`, scanning from the
/// left (`str::split` with a non-empty pattern).
pub open spec fn split_all(s: Seq<char>, pat: Seq<char>) -> Seq<Seq<char>>
    decreases s.len(),
{
    if pat.len() == 0 {
        seq![s]
    } else {
        match find_from(s, pat, 0) {
            Some(i) => {
                proof {
                    lemma_find_from(s, pat, 0);
                }
                seq![s.take(i)] + split_all(s.skip(i + pat.len()), pat)
            },
            None => seq![s],
        }
    }
}

/// The views of a sequence of character vectors.
pub open spec fn char_views(v: Seq<Vec<char>>) -> Seq<Seq<char>> {
    v.map_values(|x: Vec<char>| x@)
}

/// `str::split` on character sequences, with a non-empty pattern.
pub fn split_all_exec(s: &[char], pat: &[char]) -> (r: Vec<Vec<char>>)
    requires
        pat@.len() > 0,
    ensures
        char_views(r@) == split_all(s@, pat@),
{
    let mut parts: Vec<Vec<char>> = Vec::new();
    let mut rest = slice_chars(s, 0, s.len());
    assert(rest@ == s@);
    loop
        invariant
            pat@.len() > 0,
            char_views(parts@) + split_all(rest@, pat@) == split_all(s@, pat@),
        decreases rest@.len(),
    {
        match find_exec(rest.as_slice(), pat, 0) {
            Some(i) => {
                proof {
                    lemma_find_from(rest@, pat@, 0);
                }
                let a = slice_chars(rest.as_slice(), 0, i);
                let b = slice_chars(rest.as_slice(), i + pat.len(), rest.len());
                proof {
                    assert(a@ == rest@.take(i as int));
                    assert(b@ == rest@.skip(i + pat@.len()));
                    assert(char_views(parts@.push(a)) == char_views(parts@).push(a@));
                    assert(split_all(rest@, pat@) == seq![a@] + split_all(b@, pat@));
                    assert(char_views(parts@.push(a)) + split_all(b@, pat@) == char_views(parts@)
                        + split_all(rest@, pat@));
                }
                parts.push(a);
                rest = b;
            },
            None => {
                proof {
                    assert(char_views(parts@.push(rest)) == char_views(parts@).push(rest@));
                    assert(split_all(rest@, pat@) == seq![rest@]);
                }
                parts.push(rest);
                return parts;
            },
        }
    }
}

} // verus!
