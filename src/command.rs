use vstd::prelude::*;
use vstd::std_specs::iter::IteratorSpec;
use vstd::string::StrSliceExecFns;

verus! {

/// Largest whole part accepted in an aim coordinate; a larger one counts as
/// unparsable.
pub const MAX_AIM_WHOLE: u64 = 100_000_000_000_000;

/// An inbound command, decoded from one datagram.
#[derive(Debug)]
pub enum Command {
    /// `2,aim_x,aim_y,win_w,win_h`: aim point (fixed-point) and window size.
    Aim { x: i64, y: i64, win_w: u32, win_h: u32 },
    /// `9,name`.
    Rename { name: String },
    /// `10`.
    Accelerate,
    /// `11`.
    StopAccelerate,
    /// A known code without the fields it needs.
    Incomplete,
    /// Any other first field.
    Unknown,
}

/// The comma-separated fields of `s` (one field more than there are commas).
pub open spec fn split_fields(s: Seq<char>) -> Seq<Seq<char>>
    decreases s.len(),
{
    if s.len() == 0 {
        seq![Seq::empty()]
    } else {
        let f = split_fields(s.drop_last());
        if s.last() == ',' {
            f.push(Seq::empty())
        } else {
            f.update(f.len() - 1, f.last().push(s.last()))
        }
    }
}

pub open spec fn is_digit(c: char) -> bool {
    '0' <= c && c <= '9'
}

pub open spec fn all_digits(s: Seq<char>) -> bool {
    forall|i: int| 0 <= i < s.len() ==> is_digit(#[trigger] s[i])
}

pub open spec fn digit_value(c: char) -> int {
    (c as u32) as int - 48
}

/// The number written by the decimal digits `s` (0 for no digits).
pub open spec fn digits_value(s: Seq<char>) -> int
    decreases s.len(),
{
    if s.len() == 0 {
        0
    } else {
        digits_value(s.drop_last()) * 10 + digit_value(s.last())
    }
}

/// `s` without a leading `+`.
pub open spec fn unsigned_body(s: Seq<char>) -> Seq<char> {
    if s.len() > 0 && s[0] == '+' {
        s.skip(1)
    } else {
        s
    }
}

/// A window-size field: `[+]digits` within `u32`, else 0.
pub open spec fn u32_field(s: Seq<char>) -> u32 {
    let b = unsigned_body(s);
    if b.len() > 0 && all_digits(b) && digits_value(b) <= u32::MAX {
        digits_value(b) as u32
    } else {
        0
    }
}

/// `s` without a leading sign.
pub open spec fn signed_body(s: Seq<char>) -> Seq<char> {
    if s.len() > 0 && (s[0] == '+' || s[0] == '-') {
        s.skip(1)
    } else {
        s
    }
}

/// `b` is `digits[.digits]` with its point (or its end) at `d`, and holds at
/// least one digit.
pub open spec fn point_at(b: Seq<char>, d: int) -> bool {
    &&& 0 <= d <= b.len()
    &&& all_digits(b.take(d))
    &&& d == b.len() || (b[d] == '.' && all_digits(b.skip(d + 1)))
    &&& d > 0 || b.len() > d + 1
}

/// Largest exponent magnitude accepted in an aim coordinate; a larger one
/// counts as unparsable.
pub const MAX_EXPONENT: u64 = 40;

pub open spec fn is_exp_mark(c: char) -> bool {
    c == 'e' || c == 'E'
}

/// `e` is where the mantissa of `b` ends: at its first `e` or `E`, or at its
/// end.
pub open spec fn mantissa_end(b: Seq<char>, e: int) -> bool {
    &&& 0 <= e <= b.len()
    &&& forall|i: int| 0 <= i < e ==> !is_exp_mark(#[trigger] b[i])
    &&& e == b.len() || is_exp_mark(b[e])
}

/// The digits `dg` scaled by `10^t`, cut toward zero: zeros appended, or
/// digits dropped from the end.
pub open spec fn scaled_digits(dg: Seq<char>, t: int) -> Seq<char> {
    if t >= 0 {
        dg + Seq::new(t as nat, |_i: int| '0')
    } else if dg.len() + t > 0 {
        dg.take(dg.len() + t)
    } else {
        Seq::empty()
    }
}

/// The magnitude in ten-thousandths of the mantissa `m`, with its point at
/// `d`, times `10^ev`, decimals past the fourth cut off.
pub open spec fn fixed_magnitude(m: Seq<char>, d: int, ev: int) -> int {
    let frac = if d < m.len() {
        m.skip(d + 1)
    } else {
        Seq::empty()
    };
    digits_value(scaled_digits(m.take(d) + frac, ev + 4 - frac.len()))
}

/// An aim field: `[+|-]digits[.digits][(e|E)[+|-]digits]` as a fixed-point
/// number, decimals past the fourth cut off; 0 when malformed, when the
/// exponent exceeds `MAX_EXPONENT` in magnitude, or when the whole part
/// exceeds `MAX_AIM_WHOLE`.
pub open spec fn fixed_field(s: Seq<char>) -> i64 {
    let b = signed_body(s);
    let e = choose|e: int| mantissa_end(b, e);
    let m = b.take(e);
    let x = signed_body(b.skip(e + 1));
    let exp_ok = e == b.len() || (x.len() > 0 && all_digits(x) && digits_value(x) <= MAX_EXPONENT);
    if exp_ok && exists|d: int| point_at(m, d) {
        let d = choose|d: int| point_at(m, d);
        let ev = if e == b.len() {
            0
        } else if b.skip(e + 1).len() > 0 && b.skip(e + 1)[0] == '-' {
            -digits_value(x)
        } else {
            digits_value(x)
        };
        let mag = fixed_magnitude(m, d, ev);
        if mag <= MAX_AIM_WHOLE * 10000 + 9999 {
            if s.len() > 0 && s[0] == '-' {
                (-mag) as i64
            } else {
                mag as i64
            }
        } else {
            0
        }
    } else {
        0
    }
}

/// What `decode` returns for the text `s`.
pub open spec fn decoded(s: Seq<char>, c: Command) -> bool {
    let f = split_fields(s);
    if f[0] == seq!['2'] {
        if f.len() >= 5 {
            c == Command::Aim {
                x: fixed_field(f[1]),
                y: fixed_field(f[2]),
                win_w: u32_field(f[3]),
                win_h: u32_field(f[4]),
            }
        } else {
            c is Incomplete
        }
    } else if f[0] == seq!['9'] {
        if f.len() >= 2 {
            c matches Command::Rename { name } && name@ == f[1]
        } else {
            c is Incomplete
        }
    } else if f[0] == seq!['1', '0'] {
        c is Accelerate
    } else if f[0] == seq!['1', '1'] {
        c is StopAccelerate
    } else {
        c is Unknown
    }
}

proof fn lemma_digits_bound(s: Seq<char>)
    requires
        all_digits(s),
    ensures
        digits_value(s) >= 0,
    decreases s.len(),
{
    if s.len() > 0 {
        lemma_digits_bound(s.drop_last());
    }
}

/// A longer run of digits never writes a smaller number.
proof fn lemma_digits_grow(s: Seq<char>, j: int)
    requires
        all_digits(s),
        0 <= j <= s.len(),
    ensures
        digits_value(s.take(j)) <= digits_value(s),
    decreases s.len() - j,
{
    if j < s.len() {
        assert(s.drop_last().take(j) =~= s.take(j));
        lemma_digits_grow(s.drop_last(), j);
        lemma_digits_bound(s.drop_last());
    } else {
        assert(s.take(j) =~= s);
    }
}

proof fn lemma_take_step(s: Seq<char>, j: int)
    requires
        0 <= j < s.len(),
    ensures
        s.take(j + 1).drop_last() == s.take(j),
        s.take(j + 1).last() == s[j],
{
    assert(s.take(j + 1).drop_last() =~= s.take(j));
}


/// The only place a point can stand: the first non-digit of `b`.
proof fn lemma_point_unique(b: Seq<char>, p: int, d: int)
    requires
        0 <= p <= b.len(),
        all_digits(b.take(p)),
        p == b.len() || !is_digit(b[p]),
        point_at(b, d),
    ensures
        d == p,
{
    if d < p {
        assert(is_digit(b.take(p)[d]));
    } else if d > p {
        assert(b.take(d)[p] == b[p]);
    }
}

fn is_digit_char(c: char) -> (r: bool)
    ensures
        r == is_digit(c),
{
    c >= '0' && c <= '9'
}

fn digit_of(c: char) -> (r: u64)
    requires
        is_digit(c),
    ensures
        r == digit_value(c),
        r <= 9,
{
    (c as u32 - 48) as u64
}

/// The decimal value of `c[lo..hi]`, all digits, or `None` past `limit`.
fn digits_upto(c: &Vec<char>, lo: usize, hi: usize, limit: u64) -> (r: Option<u64>)
    requires
        lo <= hi <= c@.len(),
        all_digits(c@.subrange(lo as int, hi as int)),
        limit <= 100_000_000_000_000_000,
    ensures
        r matches Some(v) ==> v == digits_value(c@.subrange(lo as int, hi as int)) && v <= limit,
        r is None ==> digits_value(c@.subrange(lo as int, hi as int)) > limit,
{
    let ghost s = c@.subrange(lo as int, hi as int);
    let mut v: u64 = 0;
    let mut i: usize = lo;
    while i < hi
        invariant
            lo <= i <= hi,
            hi <= c@.len(),
            s == c@.subrange(lo as int, hi as int),
            all_digits(s),
            v == digits_value(s.take(i - lo)),
            v <= limit,
            limit <= 100_000_000_000_000_000,
        decreases hi - i,
    {
        proof {
            lemma_take_step(s, i - lo);
            assert(s[i - lo] == c@[i as int]);
        }
        let d = digit_of(c[i]);
        v = v * 10 + d;
        if v > limit {
            proof {
                lemma_digits_grow(s, i - lo + 1);
            }
            return None;
        }
        i = i + 1;
    }
    assert(s.take(hi - lo) =~= s);
    Some(v)
}

/// Whether `c[lo..hi]` is all digits.
fn all_digits_in(c: &Vec<char>, lo: usize, hi: usize) -> (r: bool)
    requires
        lo <= hi <= c@.len(),
    ensures
        r == all_digits(c@.subrange(lo as int, hi as int)),
{
    let mut i: usize = lo;
    while i < hi
        invariant
            lo <= i <= hi,
            hi <= c@.len(),
            all_digits(c@.subrange(lo as int, i as int)),
        decreases hi - i,
    {
        if !is_digit_char(c[i]) {
            assert(c@.subrange(lo as int, hi as int)[i - lo] == c@[i as int]);
            return false;
        }
        i = i + 1;
        assert forall|k: int| 0 <= k < i - lo implies is_digit(#[trigger] c@.subrange(lo as int, i as int)[k]) by {
            if k < i - 1 - lo {
                assert(c@.subrange(lo as int, i - 1)[k] == c@[lo + k]);
            }
        }
    }
    true
}

/// `u32_field` of `c[lo..hi]`.
pub fn parse_u32_field(c: &Vec<char>, lo: usize, hi: usize) -> (r: u32)
    requires
        lo <= hi <= c@.len(),
    ensures
        r == u32_field(c@.subrange(lo as int, hi as int)),
{
    let ghost s = c@.subrange(lo as int, hi as int);
    let mut start = lo;
    if start < hi && c[start] == '+' {
        start = start + 1;
    }
    let ghost b = c@.subrange(start as int, hi as int);
    assert(b =~= unsigned_body(s));
    if start == hi || !all_digits_in(c, start, hi) {
        return 0;
    }
    match digits_upto(c, start, hi, u32::MAX as u64) {
        Some(v) => v as u32,
        None => 0,
    }
}

proof fn lemma_mantissa_end_unique(b: Seq<char>, e: int, f: int)
    requires
        mantissa_end(b, e),
        mantissa_end(b, f),
    ensures
        e == f,
{
    if e < f {
        assert(!is_exp_mark(b[e]));
    } else if f < e {
        assert(!is_exp_mark(b[f]));
    }
}

proof fn lemma_scaled_digits(dg: Seq<char>, t: int)
    requires
        all_digits(dg),
    ensures
        all_digits(scaled_digits(dg, t)),
{
    let p = scaled_digits(dg, t);
    assert forall|i: int| 0 <= i < p.len() implies is_digit(#[trigger] p[i]) by {
        if t >= 0 {
            if i >= dg.len() {
                assert(p[i] == '0');
            } else {
                assert(p[i] == dg[i]);
            }
        } else {
            assert(p[i] == dg[i]);
        }
    }
}

/// The exponent text `c[lo..hi]`: `[+|-]digits` of magnitude at most
/// `MAX_EXPONENT`, or `None`.
fn parse_exponent(c: &Vec<char>, lo: usize, hi: usize) -> (r: Option<i64>)
    requires
        lo <= hi <= c@.len(),
    ensures
        ({
            let t = c@.subrange(lo as int, hi as int);
            let x = signed_body(t);
            &&& r is Some <==> (x.len() > 0 && all_digits(x) && digits_value(x) <= MAX_EXPONENT)
            &&& r matches Some(v) ==> -(MAX_EXPONENT as int) <= v <= MAX_EXPONENT
            &&& r matches Some(v) ==> v == (if t.len() > 0 && t[0] == '-' {
                -digits_value(x)
            } else {
                digits_value(x)
            })
        }),
{
    let ghost t = c@.subrange(lo as int, hi as int);
    let mut xs = lo;
    let mut eneg = false;
    if xs < hi && (c[xs] == '+' || c[xs] == '-') {
        eneg = c[xs] == '-';
        xs = xs + 1;
    }
    assert(signed_body(t) =~= c@.subrange(xs as int, hi as int));
    if xs == hi || !all_digits_in(c, xs, hi) {
        return None;
    }
    match digits_upto(c, xs, hi, MAX_EXPONENT) {
        Some(v) => Some(if eneg {
            -(v as i64)
        } else {
            v as i64
        }),
        None => None,
    }
}

/// `fixed_field` of `c[lo..hi]`.
#[verifier::rlimit(40)]
pub fn parse_fixed_field(c: &Vec<char>, lo: usize, hi: usize) -> (r: i64)
    requires
        lo <= hi <= c@.len(),
    ensures
        r == fixed_field(c@.subrange(lo as int, hi as int)),
{
    let ghost s = c@.subrange(lo as int, hi as int);
    let mut start = lo;
    let mut neg = false;
    if start < hi && (c[start] == '+' || c[start] == '-') {
        neg = c[start] == '-';
        start = start + 1;
    }
    let ghost b = c@.subrange(start as int, hi as int);
    assert(b =~= signed_body(s));
    assert(neg == (s.len() > 0 && s[0] == '-'));
    // The mantissa ends at the first exponent mark.
    let mut ep = start;
    while ep < hi && !(c[ep] == 'e' || c[ep] == 'E')
        invariant
            start <= ep <= hi,
            hi <= c@.len(),
            b == c@.subrange(start as int, hi as int),
            forall|i: int| 0 <= i < ep - start ==> !is_exp_mark(#[trigger] b[i]),
        decreases hi - ep,
    {
        assert(b[ep - start] == c@[ep as int]);
        ep = ep + 1;
    }
    let ghost e = ep - start;
    proof {
        if ep < hi {
            assert(b[e] == c@[ep as int]);
        }
        assert(mantissa_end(b, e));
        let e2 = choose|e2: int| mantissa_end(b, e2);
        lemma_mantissa_end_unique(b, e, e2);
    }
    let ghost m = b.take(e);
    assert(m =~= c@.subrange(start as int, ep as int));
    // The exponent, if any.
    let mut ev: i64 = 0;
    if ep < hi {
        proof {
            assert(b.skip(e + 1) =~= c@.subrange(ep + 1, hi as int));
        }
        match parse_exponent(c, ep + 1, hi) {
            Some(v) => {
                ev = v;
            },
            None => {
                return 0;
            },
        }
    }
    // The mantissa: `digits[.digits]`.
    let mut p = start;
    while p < ep && is_digit_char(c[p])
        invariant
            start <= p <= ep,
            ep <= hi <= c@.len(),
            m == c@.subrange(start as int, ep as int),
            all_digits(m.take(p - start)),
        decreases ep - p,
    {
        proof {
            lemma_take_step(m, p - start);
        }
        p = p + 1;
    }
    let ghost d = p - start;
    assert(m.take(d) =~= c@.subrange(start as int, p as int));
    if p < ep && c[p] != '.' {
        proof {
            assert(!is_digit(m[d]));
            if exists|d2: int| point_at(m, d2) {
                let d2 = choose|d2: int| point_at(m, d2);
                lemma_point_unique(m, d, d2);
            }
        }
        return 0;
    }
    if p < ep && !all_digits_in(c, p + 1, ep) {
        proof {
            assert(m.skip(d + 1) =~= c@.subrange(p + 1, ep as int));
            if exists|d2: int| point_at(m, d2) {
                let d2 = choose|d2: int| point_at(m, d2);
                lemma_point_unique(m, d, d2);
            }
        }
        return 0;
    }
    if !(p > start || ep - p > 1) {
        proof {
            if exists|d2: int| point_at(m, d2) {
                let d2 = choose|d2: int| point_at(m, d2);
                lemma_point_unique(m, d, d2);
            }
        }
        return 0;
    }
    let fstart = if p < ep { p + 1 } else { ep };
    let ghost frac = if d < m.len() {
        m.skip(d + 1)
    } else {
        Seq::<char>::empty()
    };
    proof {
        assert(frac =~= c@.subrange(fstart as int, ep as int));
        assert(point_at(m, d));
        let d2 = choose|d2: int| point_at(m, d2);
        lemma_point_unique(m, d, d2);
    }
    // Digits of the mantissa, scaled by the exponent.
    let ghost dg = m.take(d) + frac;
    assert(all_digits(dg));
    let t: i128 = ev as i128 + 4 - (ep - fstart) as i128;
    match scaled_value(c, start, p, fstart, ep, t) {
        Some(v) => {
            if neg {
                -(v as i64)
            } else {
                v as i64
            }
        },
        None => 0,
    }
}

/// `digits_value(scaled_digits(dg, t))` for the digits `dg` of
/// `c[start..p]` followed by `c[fstart..ep]`, or `None` past the largest
/// accepted magnitude.
fn scaled_value(c: &Vec<char>, start: usize, p: usize, fstart: usize, ep: usize, t: i128) -> (r: Option<u64>)
    requires
        start <= p <= fstart <= ep <= c@.len(),
        all_digits(c@.subrange(start as int, p as int) + c@.subrange(fstart as int, ep as int)),
        t <= 0x1_0000,
    ensures
        ({
            let v = digits_value(
                scaled_digits(c@.subrange(start as int, p as int) + c@.subrange(fstart as int, ep as int), t as int),
            );
            &&& r matches Some(x) ==> x == v && v <= MAX_AIM_WHOLE * 10000 + 9999
            &&& r is None ==> v > MAX_AIM_WHOLE * 10000 + 9999
        }),
{
    let ghost dg = c@.subrange(start as int, p as int) + c@.subrange(fstart as int, ep as int);
    let ghost pd = scaled_digits(dg, t as int);
    proof {
        lemma_scaled_digits(dg, t as int);
    }
    let wl = p - start;
    let fl = ep - fstart;
    let kept: usize = if t >= 0 {
        wl + fl
    } else if (wl + fl) as i128 + t > 0 {
        ((wl + fl) as i128 + t) as usize
    } else {
        0
    };
    let zeros: usize = if t >= 0 { t as usize } else { 0 };
    assert(pd.len() == kept + zeros);
    assert forall|i: int| 0 <= i < kept implies #[trigger] pd[i] == dg[i] by {}
    assert forall|i: int| kept <= i < kept + zeros implies #[trigger] pd[i] == '0' by {}
    let limit: u64 = MAX_AIM_WHOLE * 10000 + 9999;
    let mut v: u64 = 0;
    let mut j: usize = 0;
    while j < kept
        invariant
            j <= kept <= wl + fl,
            pd.len() == kept + zeros,
            wl == p - start,
            fl == ep - fstart,
            start <= p <= fstart <= ep <= c@.len(),
            dg == c@.subrange(start as int, p as int) + c@.subrange(fstart as int, ep as int),
            pd == scaled_digits(dg, t as int),
            forall|i: int| 0 <= i < kept ==> #[trigger] pd[i] == dg[i],
            all_digits(pd),
            v == digits_value(pd.take(j as int)),
            v <= limit,
            limit == MAX_AIM_WHOLE * 10000 + 9999,
        decreases kept - j,
    {
        let ch = if j < wl {
            c[start + j]
        } else {
            c[fstart + (j - wl)]
        };
        proof {
            lemma_take_step(pd, j as int);
            assert(pd[j as int] == dg[j as int]);
            assert(dg[j as int] == ch);
        }
        v = v * 10 + digit_of(ch);
        assert(v == digits_value(pd.take(j + 1)));
        if v > limit {
            proof {
                lemma_digits_grow(pd, j + 1);
            }
            return None;
        }
        j = j + 1;
    }
    let mut z: usize = 0;
    while z < zeros
        invariant
            z <= zeros,
            pd.len() == kept + zeros,
            dg == c@.subrange(start as int, p as int) + c@.subrange(fstart as int, ep as int),
            pd == scaled_digits(dg, t as int),
            forall|i: int| kept <= i < kept + zeros ==> #[trigger] pd[i] == '0',
            all_digits(pd),
            v == digits_value(pd.take(kept + z)),
            v <= limit,
            limit == MAX_AIM_WHOLE * 10000 + 9999,
        decreases zeros - z,
    {
        proof {
            lemma_take_step(pd, kept + z);
            assert(pd[kept + z] == '0');
        }
        v = v * 10;
        assert(digit_value('0') == 0);
        assert(v == digits_value(pd.take(kept + z + 1)));
        if v > limit {
            proof {
                lemma_digits_grow(pd, kept + z + 1);
            }
            return None;
        }
        z = z + 1;
    }
    assert(pd.take(pd.len() as int) =~= pd);
    Some(v)
}

/// The characters of `msg`.
pub fn chars_of(msg: &str) -> (r: Vec<char>)
    ensures
        r@ == msg@,
{
    broadcast use vstd::string::axiom_spec_iter, vstd::string::next_postcondition;

    let mut r: Vec<char> = Vec::new();
    let mut it = msg.chars();
    loop
        invariant
            it.remaining() == msg@.skip(r@.len() as int),
            r@ == msg@.take(r@.len() as int),
            r@.len() <= msg@.len(),
        ensures
            r@ == msg@,
        decreases msg@.len() - r@.len(),
    {
        let ghost rem = it.remaining();
        match it.next() {
            Some(ch) => {
                proof {
                    assert(msg@.skip(r@.len() as int)[0] == msg@[r@.len() as int]);
                }
                r.push(ch);
                proof {
                    assert(r@ =~= msg@.take(r@.len() as int));
                    assert(it.remaining() =~= msg@.skip(r@.len() as int));
                }
            },
            None => {
                proof {
                    assert(rem.len() == 0);
                    assert(msg@.skip(r@.len() as int).len() == 0);
                    assert(r@.len() == msg@.len());
                    assert(msg@.take(msg@.len() as int) =~= msg@);
                    assert(r@ =~= msg@);
                }
                break;
            },
        }
    }
    r
}

proof fn lemma_fields_nonempty(s: Seq<char>)
    ensures
        split_fields(s).len() >= 1,
    decreases s.len(),
{
    if s.len() > 0 {
        lemma_fields_nonempty(s.drop_last());
    }
}

/// `r` is the character range of the field `f` within `c`.
pub open spec fn field_at(c: Seq<char>, r: (usize, usize), f: Seq<char>) -> bool {
    r.0 <= r.1 <= c.len() && c.subrange(r.0 as int, r.1 as int) == f
}

/// The character ranges of the comma-separated fields of `c`.
pub fn field_ranges(c: &Vec<char>) -> (r: Vec<(usize, usize)>)
    ensures
        r@.len() == split_fields(c@).len(),
        forall|k: int| 0 <= k < r@.len() ==> field_at(c@, #[trigger] r@[k], split_fields(c@)[k]),
{
    let mut r: Vec<(usize, usize)> = Vec::new();
    r.push((0, 0));
    let mut i: usize = 0;
    assert(c@.take(0) =~= Seq::<char>::empty());
    assert(c@.subrange(0, 0) =~= Seq::<char>::empty());
    assert(split_fields(c@.take(0)) == seq![Seq::<char>::empty()]);
    while i < c.len()
        invariant
            i <= c@.len(),
            r@.len() == split_fields(c@.take(i as int)).len(),
            r@.len() >= 1,
            r@[r@.len() - 1].1 == i,
            forall|k: int|
                0 <= k < r@.len() ==> field_at(c@, #[trigger] r@[k], split_fields(c@.take(i as int))[k])
                    && r@[k].1 <= i,
        decreases c@.len() - i,
    {
        proof {
            lemma_take_step(c@, i as int);
            lemma_fields_nonempty(c@.take(i as int));
        }
        if c[i] == ',' {
            r.push((i + 1, i + 1));
            proof {
                assert(c@.subrange(i + 1, i + 1) =~= Seq::<char>::empty());
            }
        } else {
            let last = r.len() - 1;
            let (a, _) = r[last];
            r.set(last, (a, i + 1));
            proof {
                assert(c@.subrange(a as int, i + 1) =~= c@.subrange(a as int, i as int).push(c@[i as int]));
            }
        }
        i = i + 1;
    }
    proof {
        assert(c@.take(i as int) =~= c@);
        assert(split_fields(c@.take(i as int)) == split_fields(c@));
    }
    r
}

/// Decodes one inbound message (see `decoded`).
pub fn decode(msg: &str) -> (cmd: Command)
    ensures
        decoded(msg@, cmd),
{
    let c = chars_of(msg);
    let f = field_ranges(&c);
    proof {
        lemma_fields_nonempty(c@);
    }
    let ghost fs = split_fields(msg@);
    let (a, b) = f[0];
    let first_len = b - a;
    let is_two = first_len == 1 && c[a] == '2';
    let is_nine = first_len == 1 && c[a] == '9';
    let is_ten = first_len == 2 && c[a] == '1' && c[a + 1] == '0';
    let is_eleven = first_len == 2 && c[a] == '1' && c[a + 1] == '1';
    proof {
        let f0 = fs[0];
        assert(f0 == c@.subrange(a as int, b as int));
        if f0.len() == 1 {
            assert(f0[0] == c@[a as int]);
        }
        if f0.len() == 2 {
            assert(f0[0] == c@[a as int]);
            assert(f0[1] == c@[a + 1]);
        }
        assert(is_two == (f0 =~= seq!['2']));
        assert(is_nine == (f0 =~= seq!['9']));
        assert(is_ten == (f0 =~= seq!['1', '0']));
        assert(is_eleven == (f0 =~= seq!['1', '1']));
    }
    if is_two {
        if f.len() >= 5 {
            let (x0, x1) = f[1];
            let (y0, y1) = f[2];
            let (w0, w1) = f[3];
            let (h0, h1) = f[4];
            Command::Aim {
                x: parse_fixed_field(&c, x0, x1),
                y: parse_fixed_field(&c, y0, y1),
                win_w: parse_u32_field(&c, w0, w1),
                win_h: parse_u32_field(&c, h0, h1),
            }
        } else {
            Command::Incomplete
        }
    } else if is_nine {
        if f.len() >= 2 {
            let (n0, n1) = f[1];
            let name = msg.substring_char(n0, n1).to_owned();
            Command::Rename { name }
        } else {
            Command::Incomplete
        }
    } else if is_ten {
        Command::Accelerate
    } else if is_eleven {
        Command::StopAccelerate
    } else {
        Command::Unknown
    }
}

} // verus!
