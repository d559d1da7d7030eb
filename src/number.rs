use vstd::prelude::*;
use vstd::string::StrSliceExecFns;
use crate::text::string_of_chars;

verus! {

/// `10^k`.
pub open spec fn pow10(k: nat) -> nat
    decreases k,
{
    if k == 0 {
        1
    } else {
        10 * pow10((k - 1) as nat)
    }
}

pub open spec fn is_digit(c: char) -> bool {
    '0' <= c && c <= '9'
}

pub open spec fn all_digits(s: Seq<char>) -> bool {
    forall|i: int| 0 <= i < s.len() ==> is_digit(#[trigger] s[i])
}

pub open spec fn digit_value(c: char) -> nat {
    (c as u32 - '0' as u32) as nat
}

pub open spec fn digit_char(d: nat) -> char {
    ((48 + d) as u8) as char
}

/// The number that a string of decimal digits denotes.
pub open spec fn digits_value(s: Seq<char>) -> nat
    decreases s.len(),
{
    if s.len() == 0 {
        0
    } else {
        digits_value(s.drop_last()) * 10 + digit_value(s.last())
    }
}

/// The decimal digits of `n`, with no leading zero (`"0"` for zero).
pub open spec fn nat_digits(n: nat) -> Seq<char>
    decreases n,
{
    if n < 10 {
        seq![digit_char(n)]
    } else {
        nat_digits(n / 10).push(digit_char(n % 10))
    }
}

/// The `k` lowest decimal digits of `r`, most significant first.
pub open spec fn low_digits(r: nat, k: nat) -> Seq<char> {
    Seq::new(k, |j: int| digit_char((r / pow10((k - 1 - j) as nat)) % 10))
}

/// `s` without its trailing `'0'` characters.
pub open spec fn trim_zeros(s: Seq<char>) -> Seq<char>
    decreases s.len(),
{
    if s.len() > 0 && s.last() == '0' {
        trim_zeros(s.drop_last())
    } else {
        s
    }
}

/// Index of the first `'.'` in `s`, or its length when there is none.
pub open spec fn dot_index(s: Seq<char>) -> nat
    decreases s.len(),
{
    if s.len() == 0 {
        0
    } else if s[0] == '.' {
        0
    } else {
        1 + dot_index(s.drop_first())
    }
}

pub proof fn lemma_pow10_positive(k: nat)
    ensures
        pow10(k) >= 1,
    decreases k,
{
    if k > 0 {
        lemma_pow10_positive((k - 1) as nat);
    }
}

pub proof fn lemma_pow10_add(a: nat, b: nat)
    ensures
        pow10(a + b) == pow10(a) * pow10(b),
    decreases b,
{
    if b == 0 {
        assert(pow10(0) == 1);
        assert(a + b == a);
    } else {
        let c = (b - 1) as nat;
        lemma_pow10_add(a, c);
        assert(a + b == (a + c) + 1);
        assert(pow10(a + b) == 10 * pow10(a + c));
        assert(pow10(b) == 10 * pow10(c));
        let x = pow10(a);
        let y = pow10(c);
        assert(10 * (x * y) == x * (10 * y)) by (nonlinear_arith);
    }
}

pub proof fn lemma_pow10_monotone(a: nat, b: nat)
    requires
        a <= b,
    ensures
        pow10(a) <= pow10(b),
    decreases b,
{
    if a < b {
        lemma_pow10_monotone(a, (b - 1) as nat);
        lemma_pow10_positive((b - 1) as nat);
    }
}

/// `10^k`, or `None` when it does not fit in 128 bits.
pub fn pow10_checked(k: u32) -> (r: Option<u128>)
    ensures
        r matches Some(p) ==> p == pow10(k as nat) && p >= 1,
        r is None ==> pow10(k as nat) > u128::MAX,
{
    let mut p: u128 = 1;
    let mut i: u32 = 0;
    while i < k
        invariant
            i <= k,
            p == pow10(i as nat),
            p >= 1,
        decreases k - i,
    {
        match p.checked_mul(10) {
            Some(q) => {
                p = q;
            },
            None => {
                proof {
                    lemma_pow10_monotone((i + 1) as nat, k as nat);
                }
                return None;
            },
        }
        i = i + 1;
    }
    Some(p)
}

/// An exact decimal number: `(-1)^negative * magnitude / 10^scale`.
///
/// A zero may carry a sign, so that a negative zero read from a document is
/// kept as it came.
#[derive(Clone, Copy, Debug)]
pub struct Decimal {
    pub negative: bool,
    pub magnitude: u128,
    pub scale: u32,
}

/// Reading of a plain decimal text `-?D+(.D+)?`: the sign, the digits with the
/// point taken out, and the number of digits after the point.
pub open spec fn parse_spec(s: Seq<char>) -> Option<Decimal> {
    let negative = s.len() > 0 && s[0] == '-';
    let body = if negative { s.drop_first() } else { s };
    let k = dot_index(body);
    let ip = body.subrange(0, k as int);
    let fp = if k < body.len() { body.subrange(k as int + 1, body.len() as int) } else { Seq::empty() };
    if ip.len() > 0 && all_digits(ip) && all_digits(fp) && (k < body.len() ==> fp.len() > 0)
        && digits_value(ip + fp) <= u128::MAX && fp.len() <= u32::MAX {
        Some(Decimal { negative, magnitude: digits_value(ip + fp) as u128, scale: fp.len() as u32 })
    } else {
        None
    }
}

impl Decimal {
    /// The signed number of units of `10^-scale`.
    pub open spec fn signed(self) -> int {
        if self.negative {
            -(self.magnitude as int)
        } else {
            self.magnitude as int
        }
    }

    pub open spec fn is_zero_spec(self) -> bool {
        self.magnitude == 0
    }

    /// The shortest plain text of the number: a `-` for a negative sign, the
    /// integer digits, and a point with the fraction digits only when the
    /// fraction is not zero.
    pub open spec fn text_spec(self) -> Seq<char> {
        let p = pow10(self.scale as nat);
        let sign = if self.negative { seq!['-'] } else { Seq::<char>::empty() };
        let ip = nat_digits(self.magnitude as nat / p);
        let fp = trim_zeros(low_digits(self.magnitude as nat % p, self.scale as nat));
        if fp.len() == 0 {
            sign + ip
        } else {
            sign + ip + seq!['.'] + fp
        }
    }

    /// True when the number is zero, whatever its sign.
    pub fn is_zero(&self) -> (r: bool)
        ensures
            r == self.is_zero_spec(),
    {
        self.magnitude == 0
    }
}

} // verus!

verus! {

/// The two decimals denote the same number (a zero of either sign is zero).
pub open spec fn same_value(a: Decimal, b: Decimal) -> bool {
    a.signed() * pow10(b.scale as nat) == b.signed() * pow10(a.scale as nat)
}

/// Negation that gives a positive zero for a zero of either sign.
pub open spec fn negated_spec(d: Decimal) -> Decimal {
    if d.magnitude == 0 {
        Decimal { negative: false, ..d }
    } else {
        Decimal { negative: !d.negative, ..d }
    }
}

/// The scale at which a reflection across `axis` computes.
pub open spec fn reflect_scale(axis: Decimal, d: Decimal) -> nat {
    if axis.scale >= d.scale {
        axis.scale as nat
    } else {
        d.scale as nat
    }
}

/// The axis in units of `10^-reflect_scale`.
pub open spec fn axis_units(axis: Decimal, d: Decimal) -> nat {
    axis.magnitude as nat * pow10((reflect_scale(axis, d) - axis.scale) as nat)
}

/// The magnitude of `d` in units of `10^-reflect_scale`.
pub open spec fn value_units(axis: Decimal, d: Decimal) -> nat {
    d.magnitude as nat * pow10((reflect_scale(axis, d) - d.scale) as nat)
}

/// The reflection `axis - d` can be held exactly in a `Decimal`.
pub open spec fn reflect_fits(axis: Decimal, d: Decimal) -> bool {
    &&& axis_units(axis, d) <= u128::MAX
    &&& value_units(axis, d) <= u128::MAX
    &&& axis.negative != d.negative ==> axis_units(axis, d) + value_units(axis, d) <= u128::MAX
    &&& reflect_scale(axis, d) <= u32::MAX
}

/// `axis - d`, exactly; a zero result is a positive zero.
pub open spec fn reflected_spec(axis: Decimal, d: Decimal) -> Decimal {
    let a = axis_units(axis, d);
    let b = value_units(axis, d);
    let s = reflect_scale(axis, d) as u32;
    if axis.negative != d.negative {
        Decimal { negative: axis.negative && a + b > 0, magnitude: (a + b) as u128, scale: s }
    } else if a > b {
        Decimal { negative: axis.negative, magnitude: (a - b) as u128, scale: s }
    } else if a == b {
        Decimal { negative: false, magnitude: 0, scale: s }
    } else {
        Decimal { negative: !axis.negative, magnitude: (b - a) as u128, scale: s }
    }
}

impl Decimal {
    /// The negated number; a zero of either sign becomes a positive zero.
    pub fn negated(&self) -> (r: Decimal)
        ensures
            r == negated_spec(*self),
            !(r.negative && r.is_zero_spec()),
    {
        if self.magnitude == 0 {
            Decimal { negative: false, ..*self }
        } else {
            Decimal { negative: !self.negative, ..*self }
        }
    }
}

/// `m * 10^e`, or `None` when it does not fit in 128 bits.
fn scaled(m: u128, e: u32) -> (r: Option<u128>)
    ensures
        r is Some <==> m as nat * pow10(e as nat) <= u128::MAX,
        r matches Some(v) ==> v == m as nat * pow10(e as nat),
{
    if m == 0 {
        return Some(0);
    }
    match pow10_checked(e) {
        Some(p) => m.checked_mul(p),
        None => {
            proof {
                let q = pow10(e as nat);
                assert(m as nat * q >= q) by (nonlinear_arith)
                    requires
                        m >= 1,
                ;
            }
            None
        },
    }
}

/// `axis - d` computed exactly, or `None` when the result does not fit.
pub fn reflect(axis: Decimal, d: Decimal) -> (r: Option<Decimal>)
    ensures
        r is Some <==> reflect_fits(axis, d),
        r matches Some(v) ==> v == reflected_spec(axis, d),
{
    let s: u32 = if axis.scale >= d.scale { axis.scale } else { d.scale };
    let a = match scaled(axis.magnitude, s - axis.scale) {
        Some(a) => a,
        None => return None,
    };
    let b = match scaled(d.magnitude, s - d.scale) {
        Some(b) => b,
        None => return None,
    };
    if axis.negative != d.negative {
        match a.checked_add(b) {
            Some(m) => Some(Decimal { negative: axis.negative && m > 0, magnitude: m, scale: s }),
            None => None,
        }
    } else if a > b {
        Some(Decimal { negative: axis.negative, magnitude: a - b, scale: s })
    } else if a == b {
        Some(Decimal { negative: false, magnitude: 0, scale: s })
    } else {
        Some(Decimal { negative: !axis.negative, magnitude: b - a, scale: s })
    }
}

/// Reflecting twice across the same axis gives back the number: the second
/// reflection always fits, and its result denotes the value it started from.
pub proof fn lemma_reflect_twice(axis: Decimal, d: Decimal)
    requires
        reflect_fits(axis, d),
    ensures
        reflect_fits(axis, reflected_spec(axis, d)),
        same_value(reflected_spec(axis, reflected_spec(axis, d)), d),
{
    let r1 = reflected_spec(axis, d);
    let s = reflect_scale(axis, d);
    let a = axis_units(axis, d);
    let b = value_units(axis, d);
    assert(reflect_scale(axis, r1) == s);
    assert(pow10(0) == 1);
    assert(axis_units(axis, r1) == a);
    assert((reflect_scale(axis, r1) - r1.scale) as nat == 0);
    assert(value_units(axis, r1) == r1.magnitude);
    let p = pow10((s - d.scale) as nat);
    assert(d.signed() * p == if d.negative { -(b as int) } else { b as int }) by (nonlinear_arith)
        requires
            b == d.magnitude as nat * p,
            d.signed() == if d.negative { -(d.magnitude as int) } else { d.magnitude as int },
    ;
    assert(axis.signed() * pow10((s - axis.scale) as nat) == if axis.negative { -(a as int) } else { a as int }) by (nonlinear_arith)
        requires
            a == axis.magnitude as nat * pow10((s - axis.scale) as nat),
            axis.signed() == if axis.negative { -(axis.magnitude as int) } else { axis.magnitude as int },
    ;
    let sa: int = if axis.negative { -(a as int) } else { a as int };
    assert(r1.signed() == sa - d.signed() * p);
    let r2 = reflected_spec(axis, r1);
    assert(r2.scale == s);
    assert(r2.signed() == sa - r1.signed());
    assert(r2.signed() == d.signed() * p);
    lemma_pow10_add((s - d.scale) as nat, d.scale as nat);
    assert((s - d.scale) as nat + d.scale as nat == s);
    assert(d.signed() * pow10((s - d.scale) as nat) * pow10(d.scale as nat) == d.signed() * (
    pow10((s - d.scale) as nat) * pow10(d.scale as nat))) by (nonlinear_arith);
}

} // verus!

verus! {

fn digit_ch(d: u8) -> (c: char)
    requires
        d < 10,
    ensures
        c == digit_char(d as nat),
{
    (48u8 + d) as char
}

/// Appends the digits of `n`.
fn push_digits(n: u128, out: &mut Vec<char>)
    ensures
        final(out)@ == old(out)@ + nat_digits(n as nat),
    decreases n,
{
    if n >= 10 {
        push_digits(n / 10, out);
    }
    out.push(digit_ch((n % 10) as u8));
    proof {
        if n >= 10 {
            assert(nat_digits(n as nat) == nat_digits((n / 10) as nat).push(digit_char((n % 10) as nat)));
        }
    }
}

/// The `k` lowest decimal digits of `r`.
fn low_digit_chars(r: u128, k: u32) -> (v: Vec<char>)
    ensures
        v@ == low_digits(r as nat, k as nat),
{
    let mut v: Vec<char> = Vec::new();
    let mut j: u32 = 0;
    while j < k
        invariant
            j <= k,
            v@ =~= low_digits(r as nat, k as nat).subrange(0, j as int),
        decreases k - j,
    {
        let e = k - 1 - j;
        let d: u8 = match pow10_checked(e) {
            Some(p) => ((r / p) % 10) as u8,
            None => 0,
        };
        proof {
            let q = pow10(e as nat);
            lemma_pow10_positive(e as nat);
            if q > u128::MAX {
                assert(r as nat / q == 0) by (nonlinear_arith)
                    requires
                        q > r,
                ;
            }
            assert(low_digits(r as nat, k as nat)[j as int] == digit_char((r as nat / q) % 10));
        }
        v.push(digit_ch(d));
        assert(low_digits(r as nat, k as nat).subrange(0, j + 1) =~= low_digits(
            r as nat,
            k as nat,
        ).subrange(0, j as int).push(digit_char(d as nat)));
        j = j + 1;
    }
    v
}

impl Decimal {
    /// The number as plain text, e.g. `16.54825`, `-0.5`, `3`, `-0`.
    pub fn to_text(&self) -> (r: String)
        ensures
            r@ == self.text_spec(),
    {
        let (q, rem) = match pow10_checked(self.scale) {
            Some(p) => (self.magnitude / p, self.magnitude % p),
            None => (0, self.magnitude),
        };
        proof {
            let p = pow10(self.scale as nat);
            lemma_pow10_positive(self.scale as nat);
            if p > u128::MAX {
                assert(self.magnitude as nat / p == 0 && self.magnitude as nat % p
                    == self.magnitude as nat) by (nonlinear_arith)
                    requires
                        p > self.magnitude,
                ;
            }
        }
        let mut out: Vec<char> = Vec::new();
        if self.negative {
            out.push('-');
        }
        push_digits(q, &mut out);
        let mut fp = low_digit_chars(rem, self.scale);
        let ghost full = fp@;
        while fp.len() > 0 && fp[fp.len() - 1] == '0'
            invariant
                trim_zeros(fp@) == trim_zeros(full),
            decreases fp.len(),
        {
            let _ = fp.pop();
        }
        if fp.len() > 0 {
            out.push('.');
            out.append(&mut fp);
        }
        string_of_chars(&out)
    }
}

} // verus!

verus! {

proof fn lemma_dot_index(b: Seq<char>, t: int)
    requires
        0 <= t <= b.len(),
        forall|j: int| 0 <= j < t ==> b[j] != '.',
        t == b.len() || b[t] == '.',
    ensures
        dot_index(b) == t,
    decreases t,
{
    if t > 0 {
        lemma_dot_index(b.drop_first(), t - 1);
    }
}

fn is_digit_exec(c: char) -> (r: bool)
    ensures
        r == is_digit(c),
{
    '0' <= c && c <= '9'
}

impl Decimal {
    /// Reads a plain decimal text, `-?D+(.D+)?` (as `f64`'s `Display` writes
    /// a number). `None` when the text has another form, or when its digits
    /// make a number beyond 128 bits.
    pub fn parse(s: &str) -> (r: Option<Decimal>)
        ensures
            r == parse_spec(s@),
    {
        let n = s.unicode_len();
        let negative = n > 0 && s.get_char(0) == '-';
        let start: usize = if negative { 1 } else { 0 };
        let ghost body = if negative { s@.drop_first() } else { s@ };
        assert(body =~= s@.subrange(start as int, n as int));
        let mut k: usize = start;
        while k < n && s.get_char(k) != '.'
            invariant
                n == s@.len(),
                start <= k <= n,
                forall|j: int| start <= j < k ==> s@[j] != '.',
            decreases n - k,
        {
            k = k + 1;
        }
        proof {
            lemma_dot_index(body, (k - start) as int);
        }
        let ghost ip = body.subrange(0, (k - start) as int);
        let ghost fp = if k < n { body.subrange((k - start) as int + 1, body.len() as int) } else { Seq::<char>::empty() };
        if k == start {
            return None;
        }
        let mut mag: u128 = 0;
        let mut over = false;
        let ghost mut acc: Seq<char> = Seq::empty();
        let ghost mut gv: nat = 0;
        let mut i: usize = start;
        while i < k
            invariant
                n == s@.len(),
                body =~= s@.subrange(start as int, n as int),
                negative == (s@.len() > 0 && s@[0] == '-'),
                start == if negative { 1usize } else { 0usize },
                body == if negative { s@.drop_first() } else { s@ },
                dot_index(body) == k - start,
                fp == if k < n { body.subrange((k - start) as int + 1, body.len() as int) } else { Seq::<char>::empty() },
                start <= i <= k <= n,
                ip == body.subrange(0, (k - start) as int),
                acc == ip.subrange(0, (i - start) as int),
                all_digits(acc),
                gv == digits_value(acc),
                over <==> gv > u128::MAX,
                !over ==> mag == gv,
            decreases k - i,
        {
            let c = s.get_char(i);
            if !is_digit_exec(c) {
                assert(ip[(i - start) as int] == c);
                assert(!all_digits(ip));
                return None;
            }
            proof {
                assert(acc.push(c).drop_last() =~= acc);
                acc = acc.push(c);
                gv = gv * 10 + digit_value(c);
                assert(acc =~= ip.subrange(0, (i + 1 - start) as int));
            }
            if !over {
                let d = (c as u32 - '0' as u32) as u128;
                if mag > (u128::MAX - d) / 10 {
                    over = true;
                } else {
                    mag = mag * 10 + d;
                }
            }
            i = i + 1;
        }
        assert(acc =~= ip);
        let mut scale: u32 = 0;
        if k < n {
            if k + 1 == n {
                return None;
            }
            let mut j: usize = k + 1;
            while j < n
                invariant
                    n == s@.len(),
                    body =~= s@.subrange(start as int, n as int),
                    negative == (s@.len() > 0 && s@[0] == '-'),
                    start == if negative { 1usize } else { 0usize },
                    body == if negative { s@.drop_first() } else { s@ },
                    dot_index(body) == k - start,
                    fp == if k < n { body.subrange((k - start) as int + 1, body.len() as int) } else { Seq::<char>::empty() },
                    start < k < j <= n,
                    fp == body.subrange((k - start) as int + 1, body.len() as int),
                    acc == ip + fp.subrange(0, (j - k - 1) as int),
                    all_digits(acc),
                    gv == digits_value(acc),
                    over <==> gv > u128::MAX,
                    !over ==> mag == gv,
                    scale == j - k - 1,
                decreases n - j,
            {
                let c = s.get_char(j);
                if !is_digit_exec(c) {
                    assert(fp[(j - k - 1) as int] == c);
                    assert(!all_digits(fp));
                    return None;
                }
                if scale == u32::MAX {
                    assert(fp.len() > u32::MAX);
                    return None;
                }
                proof {
                    assert(acc.push(c).drop_last() =~= acc);
                    acc = acc.push(c);
                    gv = gv * 10 + digit_value(c);
                    assert(acc =~= ip + fp.subrange(0, (j + 1 - k - 1) as int));
                }
                if !over {
                    let d = (c as u32 - '0' as u32) as u128;
                    if mag > (u128::MAX - d) / 10 {
                        over = true;
                    } else {
                        mag = mag * 10 + d;
                    }
                }
                scale = scale + 1;
                j = j + 1;
            }
            assert(acc =~= ip + fp);
        } else {
            assert(ip + fp =~= ip);
        }
        proof {
            assert(k < n ==> fp.len() > 0);
            assert(fp.len() == scale);
            assert(all_digits(ip + fp));
            assert forall|x: int| 0 <= x < ip.len() implies is_digit(#[trigger] ip[x]) by {
                assert(ip[x] == (ip + fp)[x]);
            }
            assert forall|x: int| 0 <= x < fp.len() implies is_digit(#[trigger] fp[x]) by {
                assert(fp[x] == (ip + fp)[ip.len() + x]);
            }
        }
        if over {
            return None;
        }
        Some(Decimal { negative, magnitude: mag, scale })
    }
}

} // verus!
