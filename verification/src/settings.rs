//! The stored settings, read back with their defaults, and the timers that
//! run for the current state.
use vstd::prelude::*;
use crate::editor::all_digits;
use crate::keys::digits_value;
use crate::size::{decimal, digit_char};
use crate::text::{chars_eq, chars_of};
use crate::types::{sort_mode_of_text, SortMode, VaultState};

verus! {

/// What `str::parse::<u32>` gives: an optional `+` and then one or more
/// ASCII digits whose number fits in a `u32`.
pub open spec fn u32_text(s: Seq<char>) -> Option<u32> {
    let d = if s.len() > 0 && s[0] == '+' {
        s.skip(1)
    } else {
        s
    };
    if d.len() > 0 && all_digits(d, d.len() as int) && digits_value(d) <= u32::MAX {
        Some(digits_value(d) as u32)
    } else {
        None
    }
}

/// Reads a number as `str::parse::<u32>` does.
pub fn parse_u32(s: &str) -> (r: Option<u32>)
    ensures
        r == u32_text(s@),
{
    let v = chars_of(s);
    let start: usize = if v.len() > 0 && v[0] == '+' { 1 } else { 0 };
    let ghost d = if v@.len() > 0 && v@[0] == '+' {
        v@.skip(1)
    } else {
        v@
    };
    assert(d == v@.skip(start as int));
    if start >= v.len() {
        return None;
    }
    let mut value: u64 = 0;
    let mut k: usize = start;
    while k < v.len()
        invariant
            start <= k <= v.len(),
            v@ == s@,
            d == (if s@.len() > 0 && s@[0] == '+' {
                s@.skip(1)
            } else {
                s@
            }),
            d.len() > 0,
            d == v@.skip(start as int),
            all_digits(d, k - start),
            value == digits_value(d.take(k - start)),
            value <= u32::MAX,
        decreases v.len() - k,
    {
        let c = v[k];
        if !('0' <= c && c <= '9') {
            assert(d[k - start] == c);
            assert(!all_digits(d, d.len() as int));
            return None;
        }
        assert(d.take(k - start + 1).drop_last() == d.take(k - start));
        assert(d.take(k - start + 1).last() == c);
        let next = value * 10 + (c as u32 - 48) as u64;
        if next > 4294967295u64 {
            proof {
                assert(digits_value(d.take(k - start + 1)) == next);
                lemma_digits_value_grows(d, k - start + 1, d.len() as int);
                assert(d.take(d.len() as int) == d);
            }
            return None;
        }
        value = next;
        k = k + 1;
    }
    assert(d.take(d.len() as int) == d);
    Some(value as u32)
}

/// A longer prefix of digits writes a number no smaller.
proof fn lemma_digits_value_grows(d: Seq<char>, i: int, j: int)
    requires
        0 <= i <= j <= d.len(),
    ensures
        all_digits(d, j) ==> digits_value(d.take(i)) <= digits_value(d.take(j)),
    decreases j - i,
{
    if i < j {
        lemma_digits_value_grows(d, i, j - 1);
        assert(d.take(j).drop_last() == d.take(j - 1));
        assert(d.take(j).last() == d[j - 1]);
    }
}

/// A stored number, or the default where there is none or it does not read.
pub open spec fn number_or(v: Option<Seq<char>>, default: u32) -> u32 {
    match v {
        Some(s) => match u32_text(s) {
            Some(n) => n,
            None => default,
        },
        None => default,
    }
}

/// A stored switch (on exactly when it reads `true`), or the default.
pub open spec fn flag_or(v: Option<Seq<char>>, default: bool) -> bool {
    match v {
        Some(s) => s == seq!['t', 'r', 'u', 'e'],
        None => default,
    }
}

/// The view of an optional text.
pub open spec fn opt_view(v: Option<&str>) -> Option<Seq<char>> {
    match v {
        Some(s) => Some(s@),
        None => None,
    }
}

/// The settings the application starts with.
pub struct Settings {
    pub sort_mode: SortMode,
    /// Frames per second of the animations.
    pub framerate: u32,
    pub auto_save: bool,
    /// Seconds without an edit before an automatic save.
    pub auto_save_delay: u32,
    pub font_size: u32,
    pub grid_size: u32,
    pub line_numbers: bool,
}

/// A stored number, read with its default.
fn number_setting(v: Option<&str>, default: u32) -> (r: u32)
    ensures
        r == number_or(opt_view(v), default),
{
    match v {
        Some(s) => match parse_u32(s) {
            Some(n) => n,
            None => default,
        },
        None => default,
    }
}

/// A stored switch, read with its default.
fn flag_setting(v: Option<&str>, default: bool) -> (r: bool)
    ensures
        r == flag_or(opt_view(v), default),
{
    match v {
        Some(s) => {
            let t = chars_of(s);
            let yes = ['t', 'r', 'u', 'e'];
            assert(yes@ == seq!['t', 'r', 'u', 'e']);
            chars_eq(&t, &yes)
        },
        None => default,
    }
}

/// The settings read from what is stored (`None` where nothing is): sort by
/// last change, 30 frames per second, automatic saving after 2 seconds,
/// font size 15, canvas grid 20 and no line numbers unless stored
/// otherwise.
pub fn load_settings(
    sort_mode: Option<&str>,
    framerate: Option<&str>,
    auto_save: Option<&str>,
    auto_save_delay: Option<&str>,
    font_size: Option<&str>,
    grid_size: Option<&str>,
    line_numbers: Option<&str>,
) -> (r: Settings)
    ensures
        r.sort_mode == match sort_mode {
            Some(s) => sort_mode_of_text(s@),
            None => SortMode::Modified,
        },
        r.framerate == number_or(opt_view(framerate), 30),
        r.auto_save == flag_or(opt_view(auto_save), true),
        r.auto_save_delay == number_or(opt_view(auto_save_delay), 2),
        r.font_size == number_or(opt_view(font_size), 15),
        r.grid_size == number_or(opt_view(grid_size), 20),
        r.line_numbers == flag_or(opt_view(line_numbers), false),
{
    Settings {
        sort_mode: match sort_mode {
            Some(s) => SortMode::from_str(s),
            None => SortMode::Modified,
        },
        framerate: number_setting(framerate, 30),
        auto_save: flag_setting(auto_save, true),
        auto_save_delay: number_setting(auto_save_delay, 2),
        font_size: number_setting(font_size, 15),
        grid_size: number_setting(grid_size, 20),
        line_numbers: flag_setting(line_numbers, false),
    }
}

/// The timers that run: the loading tick while the vault loads, the
/// automatic-save check while an unlocked note has unsaved changes and
/// automatic saving is on, and the animation tick (its period in
/// milliseconds) while the vault is unlocked.
#[derive(Debug, Clone, Copy, PartialEq, Eq, Structural)]
pub struct Timers {
    pub loading: bool,
    pub auto_save: bool,
    pub animation_ms: Option<u64>,
}

/// The timers for the current state.
pub fn timers(vault: VaultState, auto_save: bool, dirty: bool, framerate: u32) -> (r: Timers)
    ensures
        r.loading == (vault == VaultState::Loading),
        r.auto_save == (auto_save && dirty && vault == VaultState::Unlocked),
        r.animation_ms == if vault == VaultState::Unlocked {
            Some((1000u32 / (if framerate > 1 {
                framerate
            } else {
                1
            })) as u64)
        } else {
            None
        },
{
    let unlocked = match vault {
        VaultState::Unlocked => true,
        _ => false,
    };
    let loading = match vault {
        VaultState::Loading => true,
        _ => false,
    };
    let fps = if framerate > 1 { framerate } else { 1 };
    Timers {
        loading,
        auto_save: auto_save && dirty && unlocked,
        animation_ms: if unlocked { Some((1000 / fps) as u64) } else { None },
    }
}

/// Whether the automatic save is due: there are unsaved changes and at
/// least `delay_secs` seconds have passed since the last edit (none
/// recorded: not due).
pub fn auto_save_due(since_edit_nanos: Option<u128>, delay_secs: u32, dirty: bool) -> (r: bool)
    ensures
        r == (dirty && match since_edit_nanos {
            Some(n) => n >= delay_secs * 1_000_000_000,
            None => false,
        }),
{
    match since_edit_nanos {
        Some(n) => n >= (delay_secs as u128) * 1_000_000_000 && dirty,
        None => false,
    }
}

/// The decimal text of a number is digits that write the number.
pub(crate) proof fn lemma_decimal_digits(n: nat)
    ensures
        decimal(n).len() > 0,
        all_digits(decimal(n), decimal(n).len() as int),
        digits_value(decimal(n)) == n,
    decreases n,
{
    let c = digit_char(n % 10);
    assert((c as u32) == 48 + n % 10);
    if n >= 10 {
        lemma_decimal_digits(n / 10);
        let d = decimal(n / 10);
        assert(decimal(n) == d.push(c));
        assert(decimal(n).drop_last() == d);
        assert(decimal(n).last() == c);
        assert forall|k: int| 0 <= k < decimal(n).len() implies '0' <= #[trigger] decimal(n)[k] <= '9' by {
            if k < d.len() {
                assert(decimal(n)[k] == d[k]);
            }
        }
        assert(n == (n / 10) * 10 + n % 10) by (nonlinear_arith);
        assert(digits_value(decimal(n)) == digits_value(d) * 10 + n % 10);
    } else {
        assert(decimal(n) == seq![c]);
        assert(decimal(n).drop_last() == Seq::<char>::empty());
        assert(decimal(n).last() == c);
        assert(digits_value(Seq::<char>::empty()) == 0);
        assert(n % 10 == n);
        assert(digits_value(decimal(n)) == digits_value(Seq::<char>::empty()) * 10 + ((c as u32) - 48) as nat);
    }
}

/// A stored number reads back as itself: the decimal text that saving a
/// setting writes (`u32::to_string`) reads as the same number, and a
/// stored switch reads back as `true` exactly when it was on.
pub proof fn law_setting_round_trip(n: u32, on: bool, default: u32, default_on: bool)
    ensures
        u32_text(decimal(n as nat)) == Some(n),
        number_or(Some(decimal(n as nat)), default) == n,
        flag_or(
            Some(if on {
                seq!['t', 'r', 'u', 'e']
            } else {
                seq!['f', 'a', 'l', 's', 'e']
            }),
            default_on,
        ) == on,
{
    lemma_decimal_digits(n as nat);
    let t = decimal(n as nat);
    assert('0' <= t[0] <= '9');
    assert(t[0] != '+');
    assert(seq!['f', 'a', 'l', 's', 'e'] != seq!['t', 'r', 'u', 'e']) by {
        assert(seq!['f', 'a', 'l', 's', 'e'].len() != seq!['t', 'r', 'u', 'e'].len());
    }
}

} // verus!
