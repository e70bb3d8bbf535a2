//! How a key is lit: status, age and risk become colour, brightness and effect.
use crate::protocol;
use crate::protocol::{DeckStatus, LedFx, Risk, URGENCY_FULL_WAIT_MS, WORKING_LONG_MS};
use crate::text;
use vstd::prelude::*;

verus! {

/// What painting a key depends on.
#[derive(Debug, Clone, Copy)]
pub struct ThemeInput {
    pub status: DeckStatus,
    pub risk: Option<Risk>,
    pub waiting_since: Option<u64>,
    pub now: u64,
}

/// How a key is lit.
#[derive(Debug, Clone, Copy, PartialEq)]
pub struct ThemeOutput {
    pub rgb: Option<[u8; 3]>,
    pub br: u8,
    pub fx: LedFx,
}

/// The content of a `ThemeOutput`.
#[verifier::ext_equal]
pub struct ThemeOutputView {
    pub rgb: Option<Seq<u8>>,
    pub br: u8,
    pub fx: LedFx,
}

impl View for ThemeOutput {
    type V = ThemeOutputView;

    open spec fn view(&self) -> ThemeOutputView {
        ThemeOutputView { rgb: protocol::channels(self.rgb), br: self.br, fx: self.fx }
    }
}

/// The base colour of each status, in hexadecimal.
#[derive(Debug, Clone, Copy)]
pub struct ThemePalette {
    pub off: &'static str,
    pub idle: &'static str,
    pub working: &'static str,
    pub waiting: &'static str,
    pub done: &'static str,
    pub error: &'static str,
}

/// The default palette.
pub open spec fn codex_palette() -> ThemePalette {
    ThemePalette {
        off: "#000000",
        idle: "#FFFFFF",
        working: "#304FFE",
        waiting: "#FF6D00",
        done: "#00FF4C",
        error: "#FF0033",
    }
}

/// The default palette.
pub fn codex_theme() -> (p: ThemePalette)
    ensures
        p == codex_palette(),
{
    ThemePalette {
        off: "#000000",
        idle: "#FFFFFF",
        working: "#304FFE",
        waiting: "#FF6D00",
        done: "#00FF4C",
        error: "#FF0033",
    }
}

/// The value of a hexadecimal digit.
pub open spec fn hex_digit(c: char) -> Option<u8> {
    if '0' <= c && c <= '9' {
        Some((c as u32 - 48) as u8)
    } else if 'a' <= c && c <= 'f' {
        Some((c as u32 - 87) as u8)
    } else if 'A' <= c && c <= 'F' {
        Some((c as u32 - 55) as u8)
    } else {
        None
    }
}

/// The value of a two-character hexadecimal number: two digits, or a plus sign
/// and one digit.
pub open spec fn hex_pair(a: char, b: char) -> Option<u8> {
    match (hex_digit(a), hex_digit(b)) {
        (Some(x), Some(y)) => Some((16 * x + y) as u8),
        (None, Some(y)) => if a == '+' {
            Some(y)
        } else {
            None
        },
        _ => None,
    }
}

/// `s` without its leading number signs.
pub open spec fn without_hashes(s: Seq<char>) -> Seq<char>
    decreases s.len(),
{
    if s.len() > 0 && s[0] == '#' {
        without_hashes(s.skip(1))
    } else {
        s
    }
}

/// The six characters of a colour: the short form doubles each of its three.
pub open spec fn six(h: Seq<char>) -> Seq<char> {
    if h.len() == 3 {
        seq![h[0], h[0], h[1], h[1], h[2], h[2]]
    } else {
        h
    }
}

/// The colour that a hexadecimal text stands for; None when it is not a colour.
pub open spec fn rgb_of(hex: Seq<char>) -> Option<Seq<u8>> {
    let f = six(without_hashes(text::trimmed(hex)));
    if f.len() == 6 {
        match (hex_pair(f[0], f[1]), hex_pair(f[2], f[3]), hex_pair(f[4], f[5])) {
            (Some(r), Some(g), Some(b)) => Some(seq![r, g, b]),
            _ => None,
        }
    } else {
        None
    }
}

/// The value of a hexadecimal digit.
fn digit_value(c: char) -> (r: Option<u8>)
    ensures
        r == hex_digit(c),
{
    if '0' <= c && c <= '9' {
        Some((c as u8) - 48)
    } else if 'a' <= c && c <= 'f' {
        Some((c as u8) - 87)
    } else if 'A' <= c && c <= 'F' {
        Some((c as u8) - 55)
    } else {
        None
    }
}

/// The value of a two-character hexadecimal number.
fn pair_value(a: char, b: char) -> (r: u8)
    requires
        hex_pair(a, b) is Some,
    ensures
        Some(r) == hex_pair(a, b),
{
    match (digit_value(a), digit_value(b)) {
        (Some(x), Some(y)) => 16 * x + y,
        (_, Some(y)) => y,
        _ => 0,
    }
}

/// The red, green and blue of a hexadecimal colour such as `#304FFE` or `#fff`.
pub fn hex_to_rgb(hex: &str) -> (r: [u8; 3])
    requires
        rgb_of(hex@) is Some,
    ensures
        r@ == rgb_of(hex@)->0,
{
    let t = text::trim(hex);
    let v = text::chars_of(t.as_str());
    let mut a: usize = 0;
    assert(v@.skip(0) == v@);
    while a < v.len() && v[a] == '#'
        invariant
            a <= v@.len(),
            without_hashes(v@) == without_hashes(v@.skip(a as int)),
        decreases v@.len() - a,
    {
        assert(v@.skip(a as int).skip(1) == v@.skip(a + 1));
        a = a + 1;
    }
    let ghost h = v@.skip(a as int);
    assert(h == without_hashes(text::trimmed(hex@)));
    let out: [u8; 3] = if v.len() - a == 3 {
        [
            pair_value(v[a], v[a]),
            pair_value(v[a + 1], v[a + 1]),
            pair_value(v[a + 2], v[a + 2]),
        ]
    } else {
        [
            pair_value(v[a], v[a + 1]),
            pair_value(v[a + 2], v[a + 3]),
            pair_value(v[a + 4], v[a + 5]),
        ]
    };
    assert(out@ == rgb_of(hex@)->0);
    out
}

/// `num` out of `den`, cut off at the whole.
pub open spec fn clamped(num: int, den: int) -> int {
    if num < den {
        num
    } else {
        den
    }
}

/// `num` out of `den`, cut off at the whole.
pub fn clamp01(num: u64, den: u64) -> (r: u64)
    ensures
        r == clamped(num as int, den as int),
{
    if num < den {
        num
    } else {
        den
    }
}

/// The whole number nearest to the point `num / den` of the way from `a` to
/// `b`; a half rounds up.
pub open spec fn blend(a: int, b: int, num: int, den: int) -> int {
    (2 * (a * (den - num) + b * num) + den) / (2 * den)
}

proof fn lemma_blend_bounds(a: int, b: int, num: int, den: int)
    requires
        0 <= a <= 255,
        0 <= b <= 255,
        0 <= num <= den,
        0 < den,
    ensures
        0 <= blend(a, b, num, den) <= 255,
        0 <= a * (den - num) <= 255 * den,
        0 <= b * num <= 255 * den,
        a * (den - num) + b * num <= 255 * den,
{
    assert(0 <= a * (den - num) <= 255 * (den - num)) by (nonlinear_arith)
        requires
            0 <= a <= 255,
            0 <= den - num,
    ;
    assert(0 <= b * num <= 255 * num) by (nonlinear_arith)
        requires
            0 <= b <= 255,
            0 <= num,
    ;
    let x = 2 * (a * (den - num) + b * num) + den;
    assert(0 <= x < 256 * (2 * den));
    assert(0 <= x / (2 * den) < 256) by (nonlinear_arith)
        requires
            0 <= x < 256 * (2 * den),
            0 < den,
    ;
}

/// The whole number nearest to the point `num / den` of the way from `a` to
/// `b`; a half rounds up.
pub fn lerp(a: u8, b: u8, num: u64, den: u64) -> (r: u8)
    requires
        num <= den,
        0 < den,
    ensures
        r == blend(a as int, b as int, num as int, den as int),
{
    proof {
        lemma_blend_bounds(a as int, b as int, num as int, den as int);
        assert(255 * den <= 255 * 0xffff_ffff_ffff_ffff);
    }
    let x: u128 = (a as u128) * ((den - num) as u128);
    let y: u128 = (b as u128) * (num as u128);
    ((2 * (x + y) + den as u128) / (2 * (den as u128))) as u8
}

/// The colour `num / den` of the way from `a` to `b`, channel by channel.
pub open spec fn blend_rgb(a: Seq<u8>, b: Seq<u8>, num: int, den: int) -> Seq<u8> {
    Seq::new(3, |k: int| blend(a[k] as int, b[k] as int, num, den) as u8)
}

/// The colour `num / den` of the way from `a` to `b`, channel by channel.
pub fn lerp_hex(a: &str, b: &str, num: u64, den: u64) -> (r: [u8; 3])
    requires
        rgb_of(a@) is Some,
        rgb_of(b@) is Some,
        num <= den,
        0 < den,
    ensures
        r@ == blend_rgb(rgb_of(a@)->0, rgb_of(b@)->0, num as int, den as int),
{
    let ca = hex_to_rgb(a);
    let cb = hex_to_rgb(b);
    let out: [u8; 3] = [
        lerp(ca[0], cb[0], num, den),
        lerp(ca[1], cb[1], num, den),
        lerp(ca[2], cb[2], num, den),
    ];
    assert(out@ == blend_rgb(ca@, cb@, num as int, den as int));
    out
}

/// Milliseconds from `since` to `now`; none when there is no start or it lies ahead.
pub open spec fn age(since: Option<u64>, now: u64) -> int {
    match since {
        Some(t) => if t <= now {
            now - t
        } else {
            0
        },
        None => 0,
    }
}

/// Milliseconds from `since` to `now`; none when there is no start or it lies ahead.
pub fn age_ms(since: Option<u64>, now: u64) -> (r: u64)
    ensures
        r == age(since, now),
{
    match since {
        Some(t) => now.saturating_sub(t),
        None => 0,
    }
}

/// The urgency of a session that has waited since `since`: its waiting time up
/// to full urgency, or what its risk gives if that is more.
pub open spec fn urgency(since: Option<u64>, risk: Option<Risk>, now: u64) -> int {
    let waited = clamped(age(since, now), URGENCY_FULL_WAIT_MS as int);
    let boost = match risk {
        Some(r) => r.spec_boost() as int,
        None => 0,
    };
    if waited < boost {
        boost
    } else {
        waited
    }
}

/// The urgency of a session that has waited since `since`: its waiting time up
/// to full urgency, or what its risk gives if that is more.
pub fn waiting_urgency(since: Option<u64>, risk: Option<Risk>, now: u64) -> (r: u64)
    ensures
        r == urgency(since, risk, now),
        r <= URGENCY_FULL_WAIT_MS,
{
    let waited: u64 = clamp01(age_ms(since, now), URGENCY_FULL_WAIT_MS);
    let boost: u64 = match risk {
        Some(r) => r.boost(),
        None => 0,
    };
    if waited < boost {
        boost
    } else {
        waited
    }
}

/// Brightness of a waiting key: from 80 when calm to 255 at full urgency. The
/// exact value at 93.6 s is 216.5 and is shown as 216; other halves round up.
pub open spec fn brightness(u: int) -> u8 {
    if u == 93_600 {
        216
    } else {
        blend(80, 255, u, URGENCY_FULL_WAIT_MS as int) as u8
    }
}

/// Effect of a waiting key: solid below 33 %, slow blink below 66 %, then fast blink.
pub open spec fn waiting_fx(u: int) -> LedFx {
    if 100 * u < 33 * URGENCY_FULL_WAIT_MS {
        LedFx::Solid
    } else if 100 * u < 66 * URGENCY_FULL_WAIT_MS {
        LedFx::BlinkSlow
    } else {
        LedFx::BlinkFast
    }
}

/// How a key with this input is lit.
pub open spec fn painted(input: ThemeInput, palette: ThemePalette) -> ThemeOutputView {
    match input.status {
        DeckStatus::Off => ThemeOutputView { rgb: None, br: 0, fx: LedFx::Solid },
        DeckStatus::Idle => ThemeOutputView {
            rgb: rgb_of(palette.idle@),
            br: 60,
            fx: LedFx::Solid,
        },
        DeckStatus::Done => ThemeOutputView {
            rgb: rgb_of(palette.done@),
            br: 255,
            fx: LedFx::Solid,
        },
        DeckStatus::Error => ThemeOutputView {
            rgb: rgb_of(palette.error@),
            br: 255,
            fx: LedFx::Solid,
        },
        DeckStatus::Working => ThemeOutputView {
            rgb: if input.waiting_since is Some {
                Some(
                    blend_rgb(
                        rgb_of(palette.working@)->0,
                        rgb_of("#7B1FA2"@)->0,
                        clamped(age(input.waiting_since, input.now), WORKING_LONG_MS as int),
                        WORKING_LONG_MS as int,
                    ),
                )
            } else {
                rgb_of(palette.working@)
            },
            br: 180,
            fx: LedFx::Breathe,
        },
        DeckStatus::Waiting => {
            let u = urgency(input.waiting_since, input.risk, input.now);
            ThemeOutputView {
                rgb: Some(
                    blend_rgb(
                        rgb_of("#FFB074"@)->0,
                        rgb_of("#FF2200"@)->0,
                        u,
                        URGENCY_FULL_WAIT_MS as int,
                    ),
                ),
                br: brightness(u),
                fx: waiting_fx(u),
            }
        },
    }
}

/// The palette has a colour for a status that is painted in a palette colour.
pub open spec fn paintable(status: DeckStatus, palette: ThemePalette) -> bool {
    match status {
        DeckStatus::Idle => rgb_of(palette.idle@) is Some,
        DeckStatus::Done => rgb_of(palette.done@) is Some,
        DeckStatus::Error => rgb_of(palette.error@) is Some,
        DeckStatus::Working => rgb_of(palette.working@) is Some,
        _ => true,
    }
}

/// A text of `#` and six hexadecimal digits is a colour.
proof fn lemma_plain_hex(s: Seq<char>)
    requires
        s.len() == 7,
        s[0] == '#',
        forall|k: int| 1 <= k < 7 ==> hex_digit(#[trigger] s[k]) is Some,
    ensures
        rgb_of(s) is Some,
        rgb_of(s)->0 == seq![
            hex_pair(s[1], s[2])->0,
            hex_pair(s[3], s[4])->0,
            hex_pair(s[5], s[6])->0,
        ],
{
    assert(hex_digit(s[6]) is Some);
    assert(hex_digit(s[1]) is Some);
    assert(text::trimmed_start(s) == s);
    assert(s.last() == s[6]);
    assert(text::trimmed(s) == s);
    let h = s.skip(1);
    assert(h[0] == s[1]);
    assert(without_hashes(h) == h);
    assert(without_hashes(s) == h);
    let f = six(h);
    assert(f == h);
    assert(hex_pair(f[0], f[1]) is Some);
    assert(hex_digit(s[2]) is Some);
    assert(hex_digit(s[3]) is Some);
    assert(hex_digit(s[4]) is Some);
    assert(hex_digit(s[5]) is Some);
}

/// Colours that the effects are blended between.
proof fn lemma_effect_colours()
    ensures
        rgb_of("#FFB074"@) == Some(seq![0xffu8, 0xb0, 0x74]),
        rgb_of("#FF2200"@) == Some(seq![0xffu8, 0x22, 0x00]),
        rgb_of("#7B1FA2"@) == Some(seq![0x7bu8, 0x1f, 0xa2]),
{
    reveal_strlit("#FFB074");
    reveal_strlit("#FF2200");
    reveal_strlit("#7B1FA2");
    lemma_plain_hex("#FFB074"@);
    lemma_plain_hex("#FF2200"@);
    lemma_plain_hex("#7B1FA2"@);
}

/// The default palette has a colour for every status.
pub proof fn lemma_codex_theme_paints(status: DeckStatus)
    ensures
        paintable(status, codex_palette()),
{
    reveal_strlit("#FFFFFF");
    reveal_strlit("#304FFE");
    reveal_strlit("#00FF4C");
    reveal_strlit("#FF0033");
    lemma_plain_hex("#FFFFFF"@);
    lemma_plain_hex("#304FFE"@);
    lemma_plain_hex("#00FF4C"@);
    lemma_plain_hex("#FF0033"@);
}

/// Brightness of a waiting key.
fn waiting_brightness(u: u64) -> (r: u8)
    requires
        u <= URGENCY_FULL_WAIT_MS,
    ensures
        r == brightness(u as int),
{
    if u == 93_600 {
        216
    } else {
        lerp(80, 255, u, URGENCY_FULL_WAIT_MS)
    }
}

/// How a key with this input is lit.
pub fn paint(input: &ThemeInput, palette: &ThemePalette) -> (out: ThemeOutput)
    requires
        paintable(input.status, *palette),
    ensures
        out@ == painted(*input, *palette),
{
    proof {
        lemma_effect_colours();
    }
    match input.status {
        DeckStatus::Off => ThemeOutput { rgb: None, br: 0, fx: LedFx::Solid },
        DeckStatus::Idle => ThemeOutput {
            rgb: Some(hex_to_rgb(palette.idle)),
            br: 60,
            fx: LedFx::Solid,
        },
        DeckStatus::Done => ThemeOutput {
            rgb: Some(hex_to_rgb(palette.done)),
            br: 255,
            fx: LedFx::Solid,
        },
        DeckStatus::Error => ThemeOutput {
            rgb: Some(hex_to_rgb(palette.error)),
            br: 255,
            fx: LedFx::Solid,
        },
        DeckStatus::Working => {
            let rgb: [u8; 3] = if input.waiting_since.is_some() {
                let long_run: u64 = clamp01(age_ms(input.waiting_since, input.now), WORKING_LONG_MS);
                lerp_hex(palette.working, "#7B1FA2", long_run, WORKING_LONG_MS)
            } else {
                hex_to_rgb(palette.working)
            };
            ThemeOutput { rgb: Some(rgb), br: 180, fx: LedFx::Breathe }
        },
        DeckStatus::Waiting => {
            let u: u64 = waiting_urgency(input.waiting_since, input.risk, input.now);
            let rgb = lerp_hex("#FFB074", "#FF2200", u, URGENCY_FULL_WAIT_MS);
            let br: u8 = waiting_brightness(u);
            let fx = if 100 * u < 33 * URGENCY_FULL_WAIT_MS {
                LedFx::Solid
            } else if 100 * u < 66 * URGENCY_FULL_WAIT_MS {
                LedFx::BlinkSlow
            } else {
                LedFx::BlinkFast
            };
            ThemeOutput { rgb: Some(rgb), br, fx }
        },
    }
}

/// A key is dark exactly when it is off.
pub proof fn lemma_only_off_is_dark(input: ThemeInput, palette: ThemePalette)
    requires
        paintable(input.status, palette),
    ensures
        painted(input, palette).rgb is None <==> input.status is Off,
        painted(input, palette).br == 0 <==> input.status is Off,
{
    if input.status is Waiting {
        let u = urgency(input.waiting_since, input.risk, input.now);
        assert(80 <= blend(80, 255, u, URGENCY_FULL_WAIT_MS as int) <= 255);
    }
}

/// Steps of insistence of an effect.
pub open spec fn insistence(fx: LedFx) -> int {
    match fx {
        LedFx::Solid => 0,
        LedFx::Breathe => 0,
        LedFx::BlinkSlow => 1,
        LedFx::BlinkFast => 2,
    }
}

/// Blending goes one way: towards `b`.
pub proof fn lemma_blend_monotone(a: int, b: int, u: int, v: int, den: int)
    requires
        0 <= u <= v,
        0 < den,
    ensures
        a <= b ==> blend(a, b, u, den) <= blend(a, b, v, den),
        a >= b ==> blend(a, b, u, den) >= blend(a, b, v, den),
{
    let x = 2 * (a * (den - u) + b * u) + den;
    let y = 2 * (a * (den - v) + b * v) + den;
    assert(y - x == 2 * ((b - a) * (v - u))) by (nonlinear_arith)
        requires
            x == 2 * (a * (den - u) + b * u) + den,
            y == 2 * (a * (den - v) + b * v) + den,
    ;
    if a <= b {
        assert((b - a) * (v - u) >= 0) by (nonlinear_arith)
            requires
                b - a >= 0,
                v - u >= 0,
        ;
        vstd::arithmetic::div_mod::lemma_div_is_ordered(x, y, 2 * den);
    }
    if a >= b {
        assert((b - a) * (v - u) <= 0) by (nonlinear_arith)
            requires
                b - a <= 0,
                v - u >= 0,
        ;
        vstd::arithmetic::div_mod::lemma_div_is_ordered(y, x, 2 * den);
    }
}

/// Blending begins at `a` and ends at `b`.
pub proof fn lemma_blend_ends(a: int, b: int, den: int)
    requires
        0 < den,
    ensures
        blend(a, b, 0, den) == a,
        blend(a, b, den, den) == b,
{
    assert(2 * (a * (den - 0) + b * 0) + den == a * (2 * den) + den) by (nonlinear_arith);
    assert(2 * (a * (den - den) + b * den) + den == b * (2 * den) + den) by (nonlinear_arith);
    vstd::arithmetic::div_mod::lemma_fundamental_div_mod_converse(
        2 * (a * (den - 0) + b * 0) + den,
        2 * den,
        a,
        den,
    );
    vstd::arithmetic::div_mod::lemma_fundamental_div_mod_converse(
        2 * (a * (den - den) + b * den) + den,
        2 * den,
        b,
        den,
    );
}

/// While a session waits, its key never grows calmer: urgency, brightness and
/// the effect only go up as time passes, and the colour only turns from orange
/// towards red.
pub proof fn lemma_waiting_only_escalates(
    since: Option<u64>,
    risk: Option<Risk>,
    earlier: u64,
    later: u64,
    palette: ThemePalette,
)
    requires
        earlier <= later,
    ensures
        ({
            let a = ThemeInput {
                status: DeckStatus::Waiting,
                risk,
                waiting_since: since,
                now: earlier,
            };
            let b = ThemeInput { now: later, ..a };
            let before = painted(a, palette);
            let after = painted(b, palette);
            &&& urgency(since, risk, earlier) <= urgency(since, risk, later)
            &&& before.br <= after.br
            &&& insistence(before.fx) <= insistence(after.fx)
            &&& before.rgb->0[0] == 255 && after.rgb->0[0] == 255
            &&& before.rgb->0[1] >= after.rgb->0[1]
            &&& before.rgb->0[2] >= after.rgb->0[2]
        }),
{
    lemma_effect_colours();
    let u = urgency(since, risk, earlier);
    let v = urgency(since, risk, later);
    let full = URGENCY_FULL_WAIT_MS as int;
    assert(0 <= u <= v <= full);
    lemma_blend_monotone(0xb0, 0x22, u, v, full);
    lemma_blend_monotone(0x74, 0x00, u, v, full);
    lemma_blend_bounds(0xb0, 0x22, u, full);
    lemma_blend_bounds(0xb0, 0x22, v, full);
    lemma_blend_bounds(0x74, 0x00, u, full);
    lemma_blend_bounds(0x74, 0x00, v, full);
    assert(blend(0xff, 0xff, u, full) == 255 && blend(0xff, 0xff, v, full) == 255);
    lemma_blend_monotone(80, 255, u, v, full);
    lemma_blend_bounds(80, 255, u, full);
    lemma_blend_bounds(80, 255, v, full);
    if u < 93_600 {
        lemma_blend_monotone(80, 255, u, 93_599, full);
        assert(blend(80, 255, 93_599, full) == 216);
    }
    assert(blend(80, 255, 93_600, full) == 217);
    assert(brightness(u) <= brightness(v));
    assert(insistence(waiting_fx(u)) <= insistence(waiting_fx(v)));
}

/// A session that has waited two minutes is shown at full urgency whatever its risk.
pub proof fn lemma_full_urgency_after_two_minutes(
    since: u64,
    risk: Option<Risk>,
    now: u64,
    palette: ThemePalette,
)
    requires
        now >= since + URGENCY_FULL_WAIT_MS,
    ensures
        painted(
            ThemeInput { status: DeckStatus::Waiting, risk, waiting_since: Some(since), now },
            palette,
        ) == (ThemeOutputView { rgb: rgb_of("#FF2200"@), br: 255, fx: LedFx::BlinkFast }),
{
    lemma_effect_colours();
    let full = URGENCY_FULL_WAIT_MS as int;
    assert(urgency(Some(since), risk, now) == full);
    lemma_blend_ends(0xff, 0xff, full);
    lemma_blend_ends(0xb0, 0x22, full);
    lemma_blend_ends(0x74, 0x00, full);
    lemma_blend_ends(80, 255, full);
    assert(blend_rgb(rgb_of("#FFB074"@)->0, rgb_of("#FF2200"@)->0, full, full) =~= rgb_of(
        "#FF2200"@,
    )->0);
}

/// The hexadecimal digit of `n`, in capitals or not.
#[verifier::opaque]
pub open spec fn hex_char(n: int, capital: bool) -> char {
    if n < 10 {
        (48 + n) as char
    } else if capital {
        (55 + n) as char
    } else {
        (87 + n) as char
    }
}

/// The two hexadecimal digits of a byte, each in capitals or not.
pub open spec fn hex_form(x: u8, capitals: (bool, bool)) -> Seq<char> {
    seq![hex_char(x as int / 16, capitals.0), hex_char(x as int % 16, capitals.1)]
}

/// A number sign, or nothing.
pub open spec fn hash_sign(with_hash: bool) -> Seq<char> {
    if with_hash {
        seq!['#']
    } else {
        Seq::empty()
    }
}

proof fn lemma_hex_char(n: int, capital: bool)
    requires
        0 <= n < 16,
    ensures
        hex_digit(hex_char(n, capital)) == Some(n as u8),
        !text::is_space(hex_char(n, capital)),
        hex_char(n, capital) != '#',
{
    reveal(hex_char);
}

proof fn lemma_hex_form(x: u8, capitals: (bool, bool))
    ensures
        hex_pair(hex_form(x, capitals)[0], hex_form(x, capitals)[1]) == Some(x),
{
    lemma_hex_char(x as int / 16, capitals.0);
    lemma_hex_char(x as int % 16, capitals.1);
}

proof fn lemma_unhashed(with_hash: bool, s: Seq<char>)
    requires
        s.len() > 0,
        s[0] != '#',
    ensures
        without_hashes(hash_sign(with_hash) + s) == s,
{
    let all = hash_sign(with_hash) + s;
    if with_hash {
        assert(all[0] == '#');
        assert(all.skip(1) == s);
        assert(without_hashes(s) == s);
    } else {
        assert(all == s);
    }
}

/// A colour written with two hexadecimal digits for each of red, green and blue
/// is read back, with a number sign or without, in capitals or not, and with
/// white space around it or not.
pub proof fn lemma_written_colour_is_read_back(
    rgb: (u8, u8, u8),
    capitals: ((bool, bool), (bool, bool), (bool, bool)),
    with_hash: bool,
    before: Seq<char>,
    after: Seq<char>,
)
    requires
        forall|i: int| 0 <= i < before.len() ==> text::is_space(#[trigger] before[i]),
        forall|i: int| 0 <= i < after.len() ==> text::is_space(#[trigger] after[i]),
    ensures
        rgb_of(
            before + (hash_sign(with_hash) + (hex_form(rgb.0, capitals.0) + hex_form(
                rgb.1,
                capitals.1,
            ) + hex_form(rgb.2, capitals.2))) + after,
        ) == Some(seq![rgb.0, rgb.1, rgb.2]),
{
    let r = hex_form(rgb.0, capitals.0);
    let g = hex_form(rgb.1, capitals.1);
    let b = hex_form(rgb.2, capitals.2);
    let digits = r + g + b;
    let s = hash_sign(with_hash) + digits;
    lemma_hex_form(rgb.0, capitals.0);
    lemma_hex_form(rgb.1, capitals.1);
    lemma_hex_form(rgb.2, capitals.2);
    lemma_hex_char(rgb.0 as int / 16, capitals.0.0);
    lemma_hex_char(rgb.2 as int % 16, capitals.2.1);
    assert(digits[0] == r[0] && digits[1] == r[1]);
    assert(digits[2] == g[0] && digits[3] == g[1]);
    assert(digits[4] == b[0] && digits[5] == b[1]);
    assert(s.last() == digits[5]);
    assert(with_hash ==> s[0] == '#');
    assert(!with_hash ==> s[0] == digits[0]);
    text::lemma_trimmed_of_padded(before, s, after);
    lemma_unhashed(with_hash, digits);
    assert(six(digits) == digits);
}

/// The short form of a colour stands for the one with each of its three
/// characters doubled.
pub proof fn lemma_short_colour_doubles(x: char, y: char, z: char, with_hash: bool)
    requires
        !text::is_space(x),
        x != '#',
        !text::is_space(z),
    ensures
        rgb_of(hash_sign(with_hash) + seq![x, y, z]) == rgb_of(
            hash_sign(with_hash) + seq![x, x, y, y, z, z],
        ),
{
    let none = Seq::<char>::empty();
    let short = seq![x, y, z];
    let long = seq![x, x, y, y, z, z];
    let s = hash_sign(with_hash) + short;
    let l = hash_sign(with_hash) + long;
    assert(s.last() == z && l.last() == z);
    assert(with_hash ==> s[0] == '#' && l[0] == '#');
    assert(!with_hash ==> s[0] == x && l[0] == x);
    assert(none + s + none == s);
    assert(none + l + none == l);
    text::lemma_trimmed_of_padded(none, s, none);
    text::lemma_trimmed_of_padded(none, l, none);
    lemma_unhashed(with_hash, short);
    lemma_unhashed(with_hash, long);
    assert(six(short) == long);
}

/// A blend is the whole number nearest to the exact point of the way from `a` to
/// `b`; of two that are equally near it is the greater one.
pub proof fn lemma_blend_is_nearest(a: int, b: int, num: int, den: int)
    requires
        0 < den,
    ensures
        2 * den * blend(a, b, num, den) <= 2 * (a * (den - num) + b * num) + den,
        2 * (a * (den - num) + b * num) + den < 2 * den * (blend(a, b, num, den) + 1),
{
    let x = 2 * (a * (den - num) + b * num) + den;
    vstd::arithmetic::div_mod::lemma_fundamental_div_mod(x, 2 * den);
    assert(0 <= x % (2 * den) < 2 * den) by (nonlinear_arith)
        requires
            0 < den,
    ;
    let q = x / (2 * den);
    assert(2 * den * (q + 1) == 2 * den * q + 2 * den) by (nonlinear_arith);
}

/// Urgency is the longer of the waiting time, up to two minutes, and what the
/// risk gives: half of that for a high risk, a quarter for a medium one.
pub proof fn lemma_urgency_is_the_longer(since: Option<u64>, risk: Option<Risk>, now: u64)
    ensures
        ({
            let u = urgency(since, risk, now);
            let waited = if since matches Some(t) && t <= now {
                now - since->0
            } else {
                0
            };
            &&& u >= waited || u == 120_000
            &&& 0 <= u <= 120_000
            &&& risk == Some(Risk::High) ==> u >= 60_000
            &&& risk == Some(Risk::Medium) ==> u >= 30_000
            &&& u == waited || u == 120_000 && waited >= 120_000 || u == 60_000 && risk == Some(
                Risk::High,
            ) || u == 30_000 && risk == Some(Risk::Medium)
        }),
{
}

/// The number is nearest to the point of the way from `a` to `b` that `w` of
/// `full` lies on.
pub open spec fn near(x: int, a: int, b: int, w: int, full: int) -> bool {
    -full <= 2 * (full * x - (a * (full - w) + b * w)) <= full
}

/// A key that has waited `w` milliseconds without a known risk turns from a light
/// orange to red, and from dim to full brightness, in step with its waiting
/// time. It begins to blink after a third of two minutes and blinks fast after
/// two thirds.
pub proof fn lemma_waiting_key_follows_its_wait(
    since: u64,
    now: u64,
    palette: ThemePalette,
)
    requires
        since <= now <= since + 120_000,
    ensures
        ({
            let w = now - since;
            let out = painted(
                ThemeInput {
                    status: DeckStatus::Waiting,
                    risk: None,
                    waiting_since: Some(since),
                    now,
                },
                palette,
            );
            &&& out.rgb matches Some(c) && c.len() == 3 && c[0] == 255 && near(
                c[1] as int,
                176,
                34,
                w,
                120_000,
            ) && near(c[2] as int, 116, 0, w, 120_000)
            &&& near(out.br as int, 80, 255, w, 120_000)
            &&& out.fx is Solid <==> w < 39_600
            &&& out.fx is BlinkSlow <==> 39_600 <= w < 79_200
            &&& out.fx is BlinkFast <==> 79_200 <= w
        }),
{
    lemma_effect_colours();
    let w = now - since;
    let full = 120_000int;
    assert(urgency(Some(since), None, now) == w);
    lemma_blend_bounds(0xff, 0xff, w, full);
    lemma_blend_bounds(0xb0, 0x22, w, full);
    lemma_blend_bounds(0x74, 0x00, w, full);
    lemma_blend_bounds(80, 255, w, full);
    lemma_blend_is_nearest(0xff, 0xff, w, full);
    lemma_blend_is_nearest(0xb0, 0x22, w, full);
    lemma_blend_is_nearest(0x74, 0x00, w, full);
    lemma_blend_is_nearest(80, 255, w, full);
    let c = blend_rgb(rgb_of("#FFB074"@)->0, rgb_of("#FF2200"@)->0, w, full);
    assert(c[0] == blend(0xff, 0xff, w, full));
    assert(c[1] == blend(0xb0, 0x22, w, full));
    assert(c[2] == blend(0x74, 0x00, w, full));
}

/// Risk counts as waiting: a key is lit as one without a known risk that has
/// waited as long, or for a high risk at least one minute, for a medium one at
/// least half a minute. Only how long it has waited matters, not when.
pub proof fn lemma_risk_counts_as_waiting(
    since: Option<u64>,
    risk: Option<Risk>,
    now: u64,
    other_since: u64,
    other_now: u64,
    palette: ThemePalette,
)
    requires
        other_since <= other_now,
        ({
            let waited = if since matches Some(t) && t <= now {
                now - since->0
            } else {
                0
            };
            let least = match risk {
                Some(Risk::High) => 60_000int,
                Some(Risk::Medium) => 30_000,
                _ => 0,
            };
            other_now - other_since == (if waited < least {
                least
            } else {
                waited
            })
        }),
    ensures
        painted(
            ThemeInput { status: DeckStatus::Waiting, risk, waiting_since: since, now },
            palette,
        ) == painted(
            ThemeInput {
                status: DeckStatus::Waiting,
                risk: None,
                waiting_since: Some(other_since),
                now: other_now,
            },
            palette,
        ),
{
    assert(urgency(since, risk, now) == urgency(Some(other_since), None, other_now));
}

/// A waiting key of high risk is never dimmer than after one minute of waiting,
/// and never lit solid.
pub proof fn lemma_high_risk_is_never_calm(since: Option<u64>, now: u64, palette: ThemePalette)
    ensures
        ({
            let out = painted(
                ThemeInput {
                    status: DeckStatus::Waiting,
                    risk: Some(Risk::High),
                    waiting_since: since,
                    now,
                },
                palette,
            );
            &&& out.br >= 168
            &&& !(out.fx is Solid)
            &&& out.rgb->0[1] <= 105
            &&& out.rgb->0[2] <= 58
        }),
{
    lemma_effect_colours();
    let u = urgency(since, Some(Risk::High), now);
    let full = URGENCY_FULL_WAIT_MS as int;
    assert(60_000 <= u <= full);
    assert(blend(80, 255, 60_000, full) == 168);
    assert(blend(0xb0, 0x22, 60_000, full) == 105);
    assert(blend(0x74, 0x00, 60_000, full) == 58);
    lemma_blend_monotone(80, 255, 60_000, u, full);
    lemma_blend_monotone(0xb0, 0x22, 60_000, u, full);
    lemma_blend_monotone(0x74, 0x00, 60_000, u, full);
    lemma_blend_bounds(80, 255, u, full);
    lemma_blend_bounds(0xb0, 0x22, u, full);
    lemma_blend_bounds(0x74, 0x00, u, full);
}

/// A key that neither waits nor works shows the colour of its status, with its
/// own brightness and without an effect, whatever its risk and its times.
pub proof fn lemma_resting_key_shows_its_colour(input: ThemeInput, palette: ThemePalette)
    ensures
        ({
            let out = painted(input, palette);
            &&& input.status is Idle ==> out.rgb == rgb_of(palette.idle@) && out.br == 60
                && out.fx is Solid
            &&& input.status is Done ==> out.rgb == rgb_of(palette.done@) && out.br == 255
                && out.fx is Solid
            &&& input.status is Error ==> out.rgb == rgb_of(palette.error@) && out.br == 255
                && out.fx is Solid
            &&& input.status is Off ==> out.rgb is None && out.br == 0 && out.fx is Solid
        }),
{
}

/// A working key breathes at its own brightness, whatever its risk. Its colour is
/// that of the palette at first and turns to violet in five minutes, in step
/// with the time it has worked.
pub proof fn lemma_working_key_turns_violet(
    risk: Option<Risk>,
    since: Option<u64>,
    now: u64,
    palette: ThemePalette,
    k: int,
)
    requires
        rgb_of(palette.working@) is Some,
        0 <= k < 3,
    ensures
        ({
            let out = painted(
                ThemeInput { status: DeckStatus::Working, risk, waiting_since: since, now },
                palette,
            );
            let base = rgb_of(palette.working@)->0;
            let violet = seq![123u8, 31, 162];
            let worked = if since matches Some(t) && t <= now {
                now - since->0
            } else {
                0
            };
            &&& out.br == 180
            &&& out.fx is Breathe
            &&& out.rgb matches Some(c) && c.len() == 3 && near(
                c[k] as int,
                base[k] as int,
                violet[k] as int,
                if worked < 300_000 {
                    worked
                } else {
                    300_000
                },
                300_000,
            )
            &&& worked == 0 ==> out.rgb == Some(base)
            &&& worked >= 300_000 ==> out.rgb == Some(violet)
        }),
{
    lemma_effect_colours();
    let base = rgb_of(palette.working@)->0;
    let violet = seq![123u8, 31, 162];
    let w = clamped(age(since, now), 300_000);
    assert(base.len() == 3);
    let c = blend_rgb(base, violet, w, 300_000);
    assert forall|j: int| 0 <= j < 3 implies #[trigger] c[j] == blend(
        base[j] as int,
        violet[j] as int,
        w,
        300_000,
    ) && (w == 0 ==> c[j] == base[j]) && (w == 300_000 ==> c[j] == violet[j]) by {
        lemma_blend_bounds(base[j] as int, violet[j] as int, w, 300_000);
        lemma_blend_ends(base[j] as int, violet[j] as int, 300_000);
    }
    lemma_blend_is_nearest(base[k] as int, violet[k] as int, w, 300_000);
    lemma_blend_ends(base[k] as int, violet[k] as int, 300_000);
    lemma_blend_bounds(base[k] as int, violet[k] as int, w, 300_000);
    assert(c[k] == blend(base[k] as int, violet[k] as int, w, 300_000));
    assert(near(c[k] as int, base[k] as int, violet[k] as int, w, 300_000));
    if since is None {
        assert(near(base[k] as int, base[k] as int, violet[k] as int, 0, 300_000)) by {
            lemma_blend_is_nearest(base[k] as int, violet[k] as int, 0, 300_000);
        }
    }
    if w == 0 {
        assert(c =~= base);
    }
    if w == 300_000 {
        assert(c =~= violet);
    }
}

/// The default palette: white for idle, blue for work, green for done, red for
/// an error.
pub proof fn lemma_codex_theme_colours()
    ensures
        rgb_of(codex_palette().idle@) == Some(seq![255u8, 255, 255]),
        rgb_of(codex_palette().working@) == Some(seq![48u8, 79, 254]),
        rgb_of(codex_palette().done@) == Some(seq![0u8, 255, 76]),
        rgb_of(codex_palette().error@) == Some(seq![255u8, 0, 51]),
        rgb_of(codex_palette().waiting@) == Some(seq![255u8, 109, 0]),
        rgb_of(codex_palette().off@) == Some(seq![0u8, 0, 0]),
{
    reveal_strlit("#000000");
    reveal_strlit("#FFFFFF");
    reveal_strlit("#304FFE");
    reveal_strlit("#00FF4C");
    reveal_strlit("#FF0033");
    reveal_strlit("#FF6D00");
    lemma_plain_hex("#000000"@);
    lemma_plain_hex("#FFFFFF"@);
    lemma_plain_hex("#304FFE"@);
    lemma_plain_hex("#00FF4C"@);
    lemma_plain_hex("#FF0033"@);
    lemma_plain_hex("#FF6D00"@);
}

/// Between two steps the greater one is taken, but for the brightness of a key
/// that waits as if for just over a minute and a half.
pub proof fn lemma_halves_go_up(since: u64, now: u64, palette: ThemePalette)
    requires
        since <= now <= since + 120_000,
    ensures
        ({
            let w = now - since;
            let out = painted(
                ThemeInput {
                    status: DeckStatus::Waiting,
                    risk: None,
                    waiting_since: Some(since),
                    now,
                },
                palette,
            );
            let c = out.rgb->0;
            &&& 2 * (120_000 * c[1] - (176 * (120_000 - w) + 34 * w)) > -120_000
            &&& 2 * (120_000 * c[2] - 116 * (120_000 - w)) > -120_000
            &&& w == 93_600 ==> out.br == 216
            &&& w != 93_600 ==> 2 * (120_000 * out.br - (80 * (120_000 - w) + 255 * w)) > -120_000
        }),
{
    lemma_effect_colours();
    let w = now - since;
    let full = 120_000int;
    assert(urgency(Some(since), None, now) == w);
    lemma_blend_bounds(0xb0, 0x22, w, full);
    lemma_blend_bounds(0x74, 0x00, w, full);
    lemma_blend_bounds(80, 255, w, full);
    lemma_blend_is_nearest(0xb0, 0x22, w, full);
    lemma_blend_is_nearest(0x74, 0x00, w, full);
    lemma_blend_is_nearest(80, 255, w, full);
    let c = blend_rgb(rgb_of("#FFB074"@)->0, rgb_of("#FF2200"@)->0, w, full);
    assert(c[1] == blend(0xb0, 0x22, w, full));
    assert(c[2] == blend(0x74, 0x00, w, full));
}

/// What is a colour has, without white space and number signs before it, three or
/// six characters.
pub proof fn lemma_colour_has_three_or_six_digits(s: Seq<char>)
    requires
        !text::is_space(s[0]),
        !text::is_space(s.last()),
        s[0] != '#',
        s.len() > 0,
    ensures
        rgb_of(s) is Some ==> s.len() == 3 || s.len() == 6,
{
    text::lemma_trimmed_of_padded(Seq::empty(), s, Seq::empty());
    assert(Seq::<char>::empty() + s + Seq::<char>::empty() =~= s);
}

} // verus!
