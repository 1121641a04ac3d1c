use vstd::prelude::*;
use vstd::string::*;

verus! {

/// Width in pixels of the texture that one view zone is rendered into.
pub const TEXTURE_W: u32 = 16;

/// Height in pixels of the texture that one view zone is rendered into.
pub const TEXTURE_H: u32 = 16;

/// Number of bytes of one RGB texture buffer: `TEXTURE_H * TEXTURE_W * 3`.
pub const TEXTURE_BYTE_SIZE: usize = 768;

/// Value of `RenderingOpts::parallel_mode` for sequential rendering.
pub const PARALLEL_OFF: bool = false;

/// Value of `RenderingOpts::parallel_mode` for rendering on a thread pool.
pub const PARALLEL_ON: bool = true;

/// The options that drive rendering: how finely the screen is split into
/// view zones, how many reflections are followed, and a few switches.
#[derive(Debug, Clone, Copy, PartialEq, Eq)]
pub struct RenderingOpts {
    pub split: u8,
    pub depth: u8,
    pub enable_bp: bool,
    pub parallel_mode: bool,
    pub limit_fps: bool,
    pub bordering_split: bool,
}

/// The character of a decimal digit.
pub open spec fn digit_char(d: int) -> char {
    if d == 0 { '0' }
    else if d == 1 { '1' }
    else if d == 2 { '2' }
    else if d == 3 { '3' }
    else if d == 4 { '4' }
    else if d == 5 { '5' }
    else if d == 6 { '6' }
    else if d == 7 { '7' }
    else if d == 8 { '8' }
    else { '9' }
}

/// The decimal notation of a natural number, without leading zeros.
pub open spec fn decimal_text(n: nat) -> Seq<char>
    decreases n,
{
    if n < 10 {
        seq![digit_char(n as int)]
    } else {
        decimal_text(n / 10) + seq![digit_char((n % 10) as int)]
    }
}

/// The text of a boolean, as Rust prints it.
pub open spec fn bool_text(b: bool) -> Seq<char> {
    if b { "true"@ } else { "false"@ }
}

/// The text that the derived `Debug` format gives for a `RenderingOpts`.
pub open spec fn debug_text(o: RenderingOpts) -> Seq<char> {
    "RenderingOpts { split: "@ + decimal_text(o.split as nat)
        + ", depth: "@ + decimal_text(o.depth as nat)
        + ", enable_bp: "@ + bool_text(o.enable_bp)
        + ", parallel_mode: "@ + bool_text(o.parallel_mode)
        + ", limit_fps: "@ + bool_text(o.limit_fps)
        + ", bordering_split: "@ + bool_text(o.bordering_split)
        + " }"@
}

fn push_digit(s: &mut String, d: u8)
    requires
        d < 10,
    ensures
        final(s)@ == old(s)@ + seq![digit_char(d as int)],
{
    if d == 0 {
        proof { reveal_strlit("0"); }
        s.append("0");
    } else if d == 1 {
        proof { reveal_strlit("1"); }
        s.append("1");
    } else if d == 2 {
        proof { reveal_strlit("2"); }
        s.append("2");
    } else if d == 3 {
        proof { reveal_strlit("3"); }
        s.append("3");
    } else if d == 4 {
        proof { reveal_strlit("4"); }
        s.append("4");
    } else if d == 5 {
        proof { reveal_strlit("5"); }
        s.append("5");
    } else if d == 6 {
        proof { reveal_strlit("6"); }
        s.append("6");
    } else if d == 7 {
        proof { reveal_strlit("7"); }
        s.append("7");
    } else if d == 8 {
        proof { reveal_strlit("8"); }
        s.append("8");
    } else {
        proof { reveal_strlit("9"); }
        s.append("9");
    }
}

fn push_decimal(s: &mut String, n: u8)
    ensures
        final(s)@ == old(s)@ + decimal_text(n as nat),
{
    if n >= 100 {
        let hundreds: u8 = n / 100;
        let tens: u8 = (n / 10) % 10;
        let units: u8 = n % 10;
        assert((n / 10) / 10 == n / 100) by (bit_vector);
        assert(n / 100 < 10) by (bit_vector);
        let ghost before = s@;
        push_digit(s, hundreds);
        push_digit(s, tens);
        push_digit(s, units);
        assert(decimal_text((n / 100) as nat) == seq![digit_char((n / 100) as int)]);
        assert(decimal_text((n / 10) as nat) == decimal_text(((n / 10) / 10) as nat)
            + seq![digit_char(((n / 10) % 10) as int)]);
        assert(decimal_text(n as nat) == decimal_text((n / 10) as nat)
            + seq![digit_char((n % 10) as int)]);
        assert(s@ == before + decimal_text(n as nat));
    } else if n >= 10 {
        let ghost before = s@;
        push_digit(s, n / 10);
        push_digit(s, n % 10);
        assert(decimal_text((n / 10) as nat) == seq![digit_char((n / 10) as int)]);
        assert(decimal_text(n as nat) == decimal_text((n / 10) as nat)
            + seq![digit_char((n % 10) as int)]);
        assert(s@ == before + decimal_text(n as nat));
    } else {
        push_digit(s, n);
    }
}

fn push_bool(s: &mut String, b: bool)
    ensures
        final(s)@ == old(s)@ + bool_text(b),
{
    if b {
        s.append("true");
    } else {
        s.append("false");
    }
}

impl RenderingOpts {
    /// The options a game starts with: one zone, two reflections, parallel
    /// rendering on, frame limiting and bordered splitting off.
    pub fn default() -> (o: RenderingOpts)
        ensures
            o == (RenderingOpts {
                split: 1,
                depth: 2,
                enable_bp: true,
                parallel_mode: true,
                limit_fps: false,
                bordering_split: false,
            }),
    {
        RenderingOpts {
            split: 1,
            depth: 2,
            enable_bp: true,
            parallel_mode: true,
            limit_fps: false,
            bordering_split: false,
        }
    }

    /// The options as text, in the form of the derived `Debug` format.
    pub fn to_str(&self) -> (s: String)
        ensures
            s@ == debug_text(*self),
    {
        let mut s = String::from_str("RenderingOpts { split: ");
        push_decimal(&mut s, self.split);
        s.append(", depth: ");
        push_decimal(&mut s, self.depth);
        s.append(", enable_bp: ");
        push_bool(&mut s, self.enable_bp);
        s.append(", parallel_mode: ");
        push_bool(&mut s, self.parallel_mode);
        s.append(", limit_fps: ");
        push_bool(&mut s, self.limit_fps);
        s.append(", bordering_split: ");
        push_bool(&mut s, self.bordering_split);
        s.append(" }");
        s
    }
}

/// Whether a character is a decimal digit.
pub open spec fn is_digit(c: char) -> bool {
    c == '0' || c == '1' || c == '2' || c == '3' || c == '4'
        || c == '5' || c == '6' || c == '7' || c == '8' || c == '9'
}

/// The value of a decimal digit.
pub open spec fn digit_value(c: char) -> int {
    if c == '1' { 1 }
    else if c == '2' { 2 }
    else if c == '3' { 3 }
    else if c == '4' { 4 }
    else if c == '5' { 5 }
    else if c == '6' { 6 }
    else if c == '7' { 7 }
    else if c == '8' { 8 }
    else if c == '9' { 9 }
    else { 0 }
}

/// The number that a string of decimal digits denotes.
pub open spec fn parse_decimal(s: Seq<char>) -> int
    decreases s.len(),
{
    if s.len() == 0 {
        0
    } else {
        parse_decimal(s.drop_last()) * 10 + digit_value(s.last())
    }
}

/// The number of decimal digits a text starts with.
pub open spec fn digit_run(t: Seq<char>) -> nat
    decreases t.len(),
{
    if t.len() > 0 && is_digit(t[0]) {
        1 + digit_run(t.drop_first())
    } else {
        0
    }
}

/// The decimal text of a number is a non-empty string of digits that reads
/// back as the number.
pub proof fn lemma_decimal_text_reads_back(n: nat)
    ensures
        decimal_text(n).len() >= 1,
        forall|i: int| 0 <= i < decimal_text(n).len() ==> is_digit(#[trigger] decimal_text(n)[i]),
        parse_decimal(decimal_text(n)) == n,
    decreases n,
{
    lemma_digit_char_value((n % 10) as int);
    if n < 10 {
        assert(decimal_text(n).drop_last() =~= Seq::<char>::empty());
        assert(parse_decimal(Seq::<char>::empty()) == 0);
        assert(decimal_text(n).last() == digit_char(n as int));
        assert(parse_decimal(decimal_text(n)) == digit_value(digit_char(n as int)));
    } else {
        lemma_decimal_text_reads_back(n / 10);
        let d = decimal_text(n / 10);
        let t = decimal_text(n);
        assert(t == d + seq![digit_char((n % 10) as int)]);
        assert(t.drop_last() =~= d);
        assert forall|i: int| 0 <= i < t.len() implies is_digit(#[trigger] t[i]) by {
            if i < d.len() {
                assert(t[i] == d[i]);
            }
        }
        assert(t.last() == digit_char((n % 10) as int));
        assert(parse_decimal(t) == parse_decimal(d) * 10 + (n % 10));
        assert((n / 10) * 10 + n % 10 == n);
    }
}

proof fn lemma_digit_char_value(d: int)
    requires
        0 <= d < 10,
    ensures
        is_digit(digit_char(d)),
        digit_value(digit_char(d)) == d,
{
}

proof fn lemma_assoc(a: Seq<char>, b: Seq<char>, c: Seq<char>)
    ensures
        (a + b) + c == a + (b + c),
{
    assert((a + b) + c =~= a + (b + c));
}

proof fn lemma_debug_text_nested(o: RenderingOpts)
    ensures
        debug_text(o) == debug_tail(o),
{
    let x1 = "RenderingOpts { split: "@;
    let x2 = decimal_text(o.split as nat);
    let x3 = ", depth: "@;
    let x4 = decimal_text(o.depth as nat);
    let x5 = ", enable_bp: "@;
    let x6 = bool_text(o.enable_bp);
    let x7 = ", parallel_mode: "@;
    let x8 = bool_text(o.parallel_mode);
    let x9 = ", limit_fps: "@;
    let x10 = bool_text(o.limit_fps);
    let x11 = ", bordering_split: "@;
    let x12 = bool_text(o.bordering_split);
    let x13 = " }"@;
    let t13 = x13;
    let t12 = x12 + t13;
    let t11 = x11 + t12;
    let t10 = x10 + t11;
    let t9 = x9 + t10;
    let t8 = x8 + t9;
    let t7 = x7 + t8;
    let t6 = x6 + t7;
    let t5 = x5 + t6;
    let t4 = x4 + t5;
    let t3 = x3 + t4;
    let t2 = x2 + t3;
    let l2 = x1 + x2;
    let l3 = l2 + x3;
    let l4 = l3 + x4;
    let l5 = l4 + x5;
    let l6 = l5 + x6;
    let l7 = l6 + x7;
    let l8 = l7 + x8;
    let l9 = l8 + x9;
    let l10 = l9 + x10;
    let l11 = l10 + x11;
    let l12 = l11 + x12;
    assert(debug_text(o) == l12 + x13);
    lemma_assoc(l11, x12, x13);
    lemma_assoc(l10, x11, t12);
    lemma_assoc(l9, x10, t11);
    lemma_assoc(l8, x9, t10);
    lemma_assoc(l7, x8, t9);
    lemma_assoc(l6, x7, t8);
    lemma_assoc(l5, x6, t7);
    lemma_assoc(l4, x5, t6);
    lemma_assoc(l3, x4, t5);
    lemma_assoc(l2, x3, t4);
    lemma_assoc(x1, x2, t3);
}

proof fn lemma_digit_run_of(d: Seq<char>, r: Seq<char>)
    requires
        forall|i: int| 0 <= i < d.len() ==> is_digit(#[trigger] d[i]),
        r.len() > 0,
        !is_digit(r[0]),
    ensures
        digit_run(d + r) == d.len(),
    decreases d.len(),
{
    if d.len() == 0 {
        assert(d + r =~= r);
    } else {
        assert((d + r)[0] == d[0]);
        assert((d + r).drop_first() =~= d.drop_first() + r);
        assert forall|i: int| 0 <= i < d.drop_first().len() implies is_digit(#[trigger] d.drop_first()[i]) by {
            assert(d.drop_first()[i] == d[i + 1]);
        }
        lemma_digit_run_of(d.drop_first(), r);
    }
}

proof fn lemma_decimal_prefix(n1: nat, n2: nat, r1: Seq<char>, r2: Seq<char>)
    requires
        decimal_text(n1) + r1 == decimal_text(n2) + r2,
        r1.len() > 0,
        !is_digit(r1[0]),
        r2.len() > 0,
        !is_digit(r2[0]),
    ensures
        n1 == n2,
        r1 == r2,
{
    let d1 = decimal_text(n1);
    let d2 = decimal_text(n2);
    lemma_decimal_text_reads_back(n1);
    lemma_decimal_text_reads_back(n2);
    lemma_digit_run_of(d1, r1);
    lemma_digit_run_of(d2, r2);
    assert((d1 + r1).take(d1.len() as int) =~= d1);
    assert((d2 + r2).take(d2.len() as int) =~= d2);
    assert((d1 + r1).skip(d1.len() as int) =~= r1);
    assert((d2 + r2).skip(d2.len() as int) =~= r2);
}

proof fn lemma_literal_prefix(a: Seq<char>, r1: Seq<char>, r2: Seq<char>)
    requires
        a + r1 == a + r2,
    ensures
        r1 == r2,
{
    assert((a + r1).skip(a.len() as int) =~= r1);
    assert((a + r2).skip(a.len() as int) =~= r2);
}

proof fn lemma_bool_prefix(b1: bool, b2: bool, r1: Seq<char>, r2: Seq<char>)
    requires
        bool_text(b1) + r1 == bool_text(b2) + r2,
    ensures
        b1 == b2,
        r1 == r2,
{
    reveal_strlit("true");
    reveal_strlit("false");
    if b1 != b2 {
        assert((bool_text(b1) + r1)[0] == bool_text(b1)[0]);
        assert((bool_text(b2) + r2)[0] == bool_text(b2)[0]);
    }
    lemma_literal_prefix(bool_text(b1), r1, r2);
}

/// The text of the options, split into its fields from the end.
spec fn debug_tail(o: RenderingOpts) -> Seq<char> {
    "RenderingOpts { split: "@ + (decimal_text(o.split as nat)
        + (", depth: "@ + (decimal_text(o.depth as nat)
        + (", enable_bp: "@ + (bool_text(o.enable_bp)
        + (", parallel_mode: "@ + (bool_text(o.parallel_mode)
        + (", limit_fps: "@ + (bool_text(o.limit_fps)
        + (", bordering_split: "@ + (bool_text(o.bordering_split) + " }"@)))))))))))
}

/// The text form tells all options apart: two options with the same text are
/// the same options, so the text shows every field, the numbers included.
pub proof fn lemma_debug_text_identifies(o1: RenderingOpts, o2: RenderingOpts)
    requires
        debug_text(o1) == debug_text(o2),
    ensures
        o1 == o2,
{
    reveal_strlit(", depth: ");
    reveal_strlit(", enable_bp: ");
    lemma_debug_text_nested(o1);
    lemma_debug_text_nested(o2);
    let a = "RenderingOpts { split: "@;
    let b = ", depth: "@;
    let c = ", enable_bp: "@;
    let r1 = b + (decimal_text(o1.depth as nat)
        + (c + (bool_text(o1.enable_bp)
        + (", parallel_mode: "@ + (bool_text(o1.parallel_mode)
        + (", limit_fps: "@ + (bool_text(o1.limit_fps)
        + (", bordering_split: "@ + (bool_text(o1.bordering_split) + " }"@)))))))));
    let r2 = b + (decimal_text(o2.depth as nat)
        + (c + (bool_text(o2.enable_bp)
        + (", parallel_mode: "@ + (bool_text(o2.parallel_mode)
        + (", limit_fps: "@ + (bool_text(o2.limit_fps)
        + (", bordering_split: "@ + (bool_text(o2.bordering_split) + " }"@)))))))));
    lemma_literal_prefix(a, decimal_text(o1.split as nat) + r1, decimal_text(o2.split as nat) + r2);
    assert(r1[0] == b[0]);
    assert(r2[0] == b[0]);
    lemma_decimal_prefix(o1.split as nat, o2.split as nat, r1, r2);
    let s1 = c + (bool_text(o1.enable_bp)
        + (", parallel_mode: "@ + (bool_text(o1.parallel_mode)
        + (", limit_fps: "@ + (bool_text(o1.limit_fps)
        + (", bordering_split: "@ + (bool_text(o1.bordering_split) + " }"@)))))));
    let s2 = c + (bool_text(o2.enable_bp)
        + (", parallel_mode: "@ + (bool_text(o2.parallel_mode)
        + (", limit_fps: "@ + (bool_text(o2.limit_fps)
        + (", bordering_split: "@ + (bool_text(o2.bordering_split) + " }"@)))))));
    lemma_literal_prefix(b, decimal_text(o1.depth as nat) + s1, decimal_text(o2.depth as nat) + s2);
    assert(s1[0] == c[0]);
    assert(s2[0] == c[0]);
    lemma_decimal_prefix(o1.depth as nat, o2.depth as nat, s1, s2);
    let p1 = ", parallel_mode: "@ + (bool_text(o1.parallel_mode)
        + (", limit_fps: "@ + (bool_text(o1.limit_fps)
        + (", bordering_split: "@ + (bool_text(o1.bordering_split) + " }"@)))));
    let p2 = ", parallel_mode: "@ + (bool_text(o2.parallel_mode)
        + (", limit_fps: "@ + (bool_text(o2.limit_fps)
        + (", bordering_split: "@ + (bool_text(o2.bordering_split) + " }"@)))));
    lemma_literal_prefix(c, bool_text(o1.enable_bp) + p1, bool_text(o2.enable_bp) + p2);
    lemma_bool_prefix(o1.enable_bp, o2.enable_bp, p1, p2);
    let q1 = ", limit_fps: "@ + (bool_text(o1.limit_fps)
        + (", bordering_split: "@ + (bool_text(o1.bordering_split) + " }"@)));
    let q2 = ", limit_fps: "@ + (bool_text(o2.limit_fps)
        + (", bordering_split: "@ + (bool_text(o2.bordering_split) + " }"@)));
    lemma_literal_prefix(", parallel_mode: "@, bool_text(o1.parallel_mode) + q1, bool_text(o2.parallel_mode) + q2);
    lemma_bool_prefix(o1.parallel_mode, o2.parallel_mode, q1, q2);
    let u1 = ", bordering_split: "@ + (bool_text(o1.bordering_split) + " }"@);
    let u2 = ", bordering_split: "@ + (bool_text(o2.bordering_split) + " }"@);
    lemma_literal_prefix(", limit_fps: "@, bool_text(o1.limit_fps) + u1, bool_text(o2.limit_fps) + u2);
    lemma_bool_prefix(o1.limit_fps, o2.limit_fps, u1, u2);
    lemma_literal_prefix(", bordering_split: "@, bool_text(o1.bordering_split) + " }"@, bool_text(o2.bordering_split) + " }"@);
    lemma_bool_prefix(o1.bordering_split, o2.bordering_split, " }"@, " }"@);
}

/// The number written at position `k` of a text: the digits that start there,
/// read as a decimal number.
pub open spec fn number_at(t: Seq<char>, k: int) -> int {
    parse_decimal(t.skip(k).take(digit_run(t.skip(k)) as int))
}

/// Whether the text at position `k` reads `true`.
pub open spec fn shows_true_at(t: Seq<char>, k: int) -> bool {
    t.skip(k).take(4) == "true"@
}

/// The length of the switch value written at position `k`.
pub open spec fn switch_len_at(t: Seq<char>, k: int) -> int {
    if shows_true_at(t, k) { 4 } else { 5 }
}

proof fn lemma_skip_add(a: Seq<char>, b: Seq<char>, k: int)
    requires
        a.len() <= k <= a.len() + b.len(),
    ensures
        (a + b).skip(k) == b.skip(k - a.len()),
{
    assert((a + b).skip(k) =~= b.skip(k - a.len()));
}

proof fn lemma_number_read(n: nat, r: Seq<char>)
    requires
        r.len() > 0,
        !is_digit(r[0]),
    ensures
        digit_run(decimal_text(n) + r) == decimal_text(n).len(),
        parse_decimal((decimal_text(n) + r).take(decimal_text(n).len() as int)) == n,
{
    let d = decimal_text(n);
    lemma_decimal_text_reads_back(n);
    lemma_digit_run_of(d, r);
    assert((d + r).take(d.len() as int) =~= d);
}

proof fn lemma_switch_read(b: bool, r: Seq<char>)
    ensures
        ((bool_text(b) + r).take(4) == "true"@) == b,
{
    reveal_strlit("true");
    reveal_strlit("false");
    let t = bool_text(b) + r;
    if b {
        assert(t.take(4) =~= "true"@);
    } else {
        assert(t.take(4)[0] == 'f');
        assert("true"@[0] == 't');
    }
}

proof fn lemma_skip_more(t: Seq<char>, k: int, x: Seq<char>, y: Seq<char>)
    requires
        0 <= k <= t.len(),
        t.skip(k) == x + y,
    ensures
        t.skip(k + x.len()) == y,
{
    assert(t.skip(k).len() == t.len() - k);
    assert(k + x.len() <= t.len());
    assert forall|i: int| 0 <= i < y.len() implies #[trigger] t.skip(k + x.len())[i] == y[i] by {
        assert(t.skip(k + x.len())[i] == t[k + x.len() + i]);
        assert(t.skip(k)[x.len() + i] == t[k + x.len() + i]);
        assert(t.skip(k)[x.len() + i] == (x + y)[x.len() + i]);
    }
    assert(t.skip(k + x.len()) =~= y);
}

/// Reading the text form back gives the options: it starts with the type's
/// name and the split field, the number after it is the zone count, the
/// number after `, depth: ` is the depth, and each switch field reads `true`
/// exactly when that switch is on.
#[verifier::rlimit(40)]
pub proof fn lemma_debug_text_reads_back(o: RenderingOpts)
    ensures
        ({
            let t = debug_text(o);
            let k1 = 23int;
            let k2 = k1 + digit_run(t.skip(k1)) + 9;
            let k3 = k2 + digit_run(t.skip(k2)) + 13;
            let k4 = k3 + switch_len_at(t, k3) + 17;
            let k5 = k4 + switch_len_at(t, k4) + 13;
            let k6 = k5 + switch_len_at(t, k5) + 19;
            &&& t.take(23) == "RenderingOpts { split: "@
            &&& number_at(t, k1) == o.split
            &&& number_at(t, k2) == o.depth
            &&& shows_true_at(t, k3) == o.enable_bp
            &&& shows_true_at(t, k4) == o.parallel_mode
            &&& shows_true_at(t, k5) == o.limit_fps
            &&& shows_true_at(t, k6) == o.bordering_split
            &&& t.len() == k6 + switch_len_at(t, k6) + 2
        }),
{
    reveal_strlit("RenderingOpts { split: ");
    reveal_strlit(", depth: ");
    reveal_strlit(", enable_bp: ");
    reveal_strlit(", parallel_mode: ");
    reveal_strlit(", limit_fps: ");
    reveal_strlit(", bordering_split: ");
    reveal_strlit(" }");
    reveal_strlit("true");
    reveal_strlit("false");
    lemma_debug_text_nested(o);
    let t = debug_text(o);
    let d1 = decimal_text(o.split as nat);
    let d2 = decimal_text(o.depth as nat);
    let e1 = bool_text(o.enable_bp);
    let e2 = bool_text(o.parallel_mode);
    let e3 = bool_text(o.limit_fps);
    let e4 = bool_text(o.bordering_split);
    let t12 = " }"@;
    let t11 = e4 + t12;
    let t10 = ", bordering_split: "@ + t11;
    let t9 = e3 + t10;
    let t8 = ", limit_fps: "@ + t9;
    let t7 = e2 + t8;
    let t6 = ", parallel_mode: "@ + t7;
    let t5 = e1 + t6;
    let t4 = ", enable_bp: "@ + t5;
    let t3 = d2 + t4;
    let t2 = ", depth: "@ + t3;
    let t1 = d1 + t2;
    let a = "RenderingOpts { split: "@;
    assert(t == a + t1);
    assert(t.take(23) =~= a);
    assert(t.skip(0) =~= t);
    lemma_skip_more(t, 0, a, t1);
    lemma_skip_more(t, 23, d1, t2);
    lemma_skip_more(t, 23 + d1.len() as int, ", depth: "@, t3);
    let k2: int = 23 + d1.len() as int + 9;
    lemma_skip_more(t, k2, d2, t4);
    lemma_skip_more(t, k2 + d2.len() as int, ", enable_bp: "@, t5);
    let k3: int = k2 + d2.len() + 13;
    lemma_skip_more(t, k3, e1, t6);
    lemma_skip_more(t, k3 + e1.len() as int, ", parallel_mode: "@, t7);
    let k4: int = k3 + e1.len() + 17;
    lemma_skip_more(t, k4, e2, t8);
    lemma_skip_more(t, k4 + e2.len() as int, ", limit_fps: "@, t9);
    let k5: int = k4 + e2.len() + 13;
    lemma_skip_more(t, k5, e3, t10);
    lemma_skip_more(t, k5 + e3.len() as int, ", bordering_split: "@, t11);
    let k6: int = k5 + e3.len() + 19;
    assert(t2[0] == ',');
    assert(t4[0] == ',');
    lemma_number_read(o.split as nat, t2);
    lemma_number_read(o.depth as nat, t4);
    lemma_switch_read(o.enable_bp, t6);
    lemma_switch_read(o.parallel_mode, t8);
    lemma_switch_read(o.limit_fps, t10);
    lemma_switch_read(o.bordering_split, t12);
    assert(switch_len_at(t, k3) == e1.len());
    assert(switch_len_at(t, k4) == e2.len());
    assert(switch_len_at(t, k5) == e3.len());
    assert(", bordering_split: "@.len() == 19);
    assert(t.skip(k6) == t11);
    assert(t.skip(k6).take(4) == t11.take(4));
    assert(e4.len() == (if o.bordering_split { 4int } else { 5int }));
    assert(shows_true_at(t, k6) == o.bordering_split);
    assert(switch_len_at(t, k6) == e4.len());
    assert(t.len() == k6 + t11.len());
}

} // verus!
