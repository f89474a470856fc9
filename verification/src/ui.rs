//! What the viewer's screens show, as text and colours.

use vstd::prelude::*;
use crate::app::{App, AppModel};
use crate::common::{is_white_space, lemma_trim_fixed, lemma_trimmed_shape, str_trim, trimmed};

verus! {

/// The colour a log level is drawn in.
#[derive(Clone, Copy, PartialEq, Eq, Structural, Debug)]
pub enum LevelColor {
    Red,
    Yellow,
    Green,
    Blue,
    White,
}

/// The colour of a level: errors red, warnings yellow, info green, debug
/// blue, anything else white.
pub open spec fn level_color_of(level: Seq<char>) -> LevelColor {
    if level == "ERROR"@ || level == "FATAL"@ {
        LevelColor::Red
    } else if level == "WARN"@ {
        LevelColor::Yellow
    } else if level == "INFO"@ {
        LevelColor::Green
    } else if level == "DEBUG"@ {
        LevelColor::Blue
    } else {
        LevelColor::White
    }
}

/// The colour a log level is drawn in.
pub fn level_style(level: &str) -> (c: LevelColor)
    ensures
        c == level_color_of(level@),
{
    let l = String::from_str(level);
    if l == String::from_str("ERROR") || l == String::from_str("FATAL") {
        LevelColor::Red
    } else if l == String::from_str("WARN") {
        LevelColor::Yellow
    } else if l == String::from_str("INFO") {
        LevelColor::Green
    } else if l == String::from_str("DEBUG") {
        LevelColor::Blue
    } else {
        LevelColor::White
    }
}

/// The shortened form of an already trimmed text `t`: unchanged if it has
/// at most `max_chars` characters, else its first `max_chars - 3`
/// characters followed by `...`.
pub open spec fn shortened(t: Seq<char>, max_chars: int) -> Seq<char> {
    if t.len() > max_chars {
        t.take(max_chars - 3) + seq!['.', '.', '.']
    } else {
        t
    }
}

/// Trims `s` and shortens it to `max_chars` characters, ending it with
/// `...` when it had to be cut.
pub fn truncate(s: &str, max_chars: usize) -> (r: String)
    requires
        max_chars >= 3 || trimmed(s@).len() <= max_chars,
    ensures
        r@ == shortened(trimmed(s@), max_chars as int),
{
    let t = str_trim(s);
    if t.unicode_len() > max_chars {
        let head = t.substring_char(0, max_chars - 3);
        let mut out = String::from_str(head);
        out.append("...");
        proof {
            reveal_strlit("...");
        }
        assert(out@ =~= shortened(trimmed(s@), max_chars as int));
        out
    } else {
        String::from_str(t)
    }
}

/// `truncate` where it is defined: `None` when the trimmed text is longer
/// than `max_chars` and `max_chars` leaves no room for `...`.
pub fn try_truncate(s: &str, max_chars: usize) -> (r: Option<String>)
    ensures
        match r {
            Some(out) => (max_chars >= 3 || trimmed(s@).len() <= max_chars) && out@ == shortened(
                trimmed(s@),
                max_chars as int,
            ),
            None => max_chars < 3 && trimmed(s@).len() > max_chars,
        },
{
    let t = str_trim(s);
    if max_chars >= 3 || t.unicode_len() <= max_chars {
        Some(truncate(s, max_chars))
    } else {
        None
    }
}

/// The character of a decimal digit.
pub open spec fn digit_char(d: int) -> char {
    if d == 0 { '0' }
    else if d == 1 { '1' }
    else if d == 2 { '2' }
    else if d == 3 { '3' }
    else if d == 4 { '4' }
    else if d == 5 { '5' }
    else if d == 6 { '6' }
    else if d == 7 { '7' }
    else if d == 8 { '8' }
    else { '9' }
}

/// The decimal notation of `n`, without leading zeros.
pub open spec fn decimal(n: nat) -> Seq<char>
    decreases n,
{
    if n < 10 {
        seq![digit_char(n as int)]
    } else {
        decimal(n / 10) + seq![digit_char((n % 10) as int)]
    }
}

fn digit_str(d: usize) -> (r: &'static str)
    requires
        d < 10,
    ensures
        r@ == seq![digit_char(d as int)],
{
    proof {
        reveal_strlit("0");
        reveal_strlit("1");
        reveal_strlit("2");
        reveal_strlit("3");
        reveal_strlit("4");
        reveal_strlit("5");
        reveal_strlit("6");
        reveal_strlit("7");
        reveal_strlit("8");
        reveal_strlit("9");
    }
    let r = if d == 0 { "0" }
    else if d == 1 { "1" }
    else if d == 2 { "2" }
    else if d == 3 { "3" }
    else if d == 4 { "4" }
    else if d == 5 { "5" }
    else if d == 6 { "6" }
    else if d == 7 { "7" }
    else if d == 8 { "8" }
    else { "9" };
    assert(r@ =~= seq![digit_char(d as int)]);
    r
}

/// Appends the decimal notation of `n` to `out`.
fn push_decimal(out: &mut String, n: usize)
    ensures
        final(out)@ == old(out)@ + decimal(n as nat),
    decreases n,
{
    if n >= 10 {
        push_decimal(out, n / 10);
    }
    out.append(digit_str(n % 10));
    assert(out@ =~= old(out)@ + decimal(n as nat));
}

/// The decimal notation of `n`.
pub fn decimal_string(n: usize) -> (r: String)
    ensures
        r@ == decimal(n as nat),
{
    let mut out = String::new();
    push_decimal(&mut out, n);
    assert(out@ =~= decimal(n as nat));
    out
}

/// The status bar of the table screen:
/// ` Gader | <visible>/<total> logs | Filter: <name>[ [LIVE]] `.
pub open spec fn status_text(m: AppModel) -> Seq<char> {
    " Gader | "@ + decimal(m.visible_len() as nat) + seq!['/'] + decimal(m.logs.len())
        + " logs | Filter: "@ + m.filter_name() + (if m.follow {
        " [LIVE]"@
    } else {
        Seq::empty()
    }) + seq![' ']
}

/// The status bar of the table screen.
pub fn status_line(app: &App) -> (r: String)
    requires
        app.readable(),
    ensures
        r@ == status_text(app.model()),
{
    let visible = app.filtered_len();
    let mut out = String::from_str(" Gader | ");
    out.append(decimal_string(visible).as_str());
    out.append("/");
    out.append(decimal_string(app.logs.len()).as_str());
    out.append(" logs | Filter: ");
    out.append(app.filter_name());
    if app.follow {
        out.append(" [LIVE]");
    }
    out.append(" ");
    proof {
        reveal_strlit("/");
        reveal_strlit(" ");
    }
    assert(out@ =~= status_text(app.model()));
    out
}

/// The title of the detail screen: ` Log Detail  [#<row>] `, where `<row>`
/// is the 1-based selected row, or 0 when no row is selected.
pub open spec fn detail_title_text(m: AppModel) -> Seq<char> {
    let row: nat = match m.selected {
        Some(i) => (i + 1) as nat,
        None => 0,
    };
    " Log Detail  [#"@ + decimal(row) + "] "@
}

/// The title of the detail screen.
pub fn detail_title(app: &App) -> (r: String)
    requires
        app.wf(),
    ensures
        r@ == detail_title_text(app.model()),
{
    proof {
        crate::app::lemma_visible_indices(app.model().logs, app.model().filter());
    }
    let row = match app.table_state.selected() {
        Some(i) => i + 1,
        None => 0,
    };
    let mut out = String::from_str(" Log Detail  [#");
    out.append(decimal_string(row).as_str());
    out.append("] ");
    assert(out@ =~= detail_title_text(app.model()));
    out
}

/// A shortened text never has more than `max_chars` characters, and a text
/// that fits is left as it is.
pub proof fn law_shortened_fits(t: Seq<char>, max_chars: int)
    requires
        max_chars >= 3,
    ensures
        shortened(t, max_chars).len() <= max_chars,
        t.len() <= max_chars ==> shortened(t, max_chars) == t,
        t.len() > max_chars ==> shortened(t, max_chars).len() == max_chars,
{
}

/// Shortening is idempotent: truncating the result of `truncate` again
/// (with the same room, at least 3) changes nothing.
pub proof fn law_truncate_idempotent(s: Seq<char>, max_chars: int)
    requires
        max_chars >= 3,
    ensures
        shortened(trimmed(shortened(trimmed(s), max_chars)), max_chars) == shortened(
            trimmed(s),
            max_chars,
        ),
{
    let t = trimmed(s);
    let r = shortened(t, max_chars);
    lemma_trimmed_shape(s);
    if t.len() > max_chars {
        let dots = seq!['.', '.', '.'];
        assert(!is_white_space('.'));
        if max_chars - 3 > 0 {
            assert(r[0] == t[0]);
        } else {
            assert(r[0] == '.');
        }
        assert(r.last() == '.');
    }
    lemma_trim_fixed(r);
}

/// A text longer than the room is cut at its end: the result keeps the
/// text's first `max_chars - 3` characters, then `...`, and has exactly
/// `max_chars` characters.
pub proof fn law_truncate_keeps_the_start(t: Seq<char>, max_chars: int)
    requires
        max_chars >= 3,
        t.len() > max_chars,
    ensures
        shortened(t, max_chars).len() == max_chars,
        shortened(t, max_chars).take(max_chars - 3) == t.take(max_chars - 3),
        shortened(t, max_chars).subrange(max_chars - 3, max_chars) == seq!['.', '.', '.'],
{
    assert(shortened(t, max_chars).take(max_chars - 3) =~= t.take(max_chars - 3));
    assert(shortened(t, max_chars).subrange(max_chars - 3, max_chars) =~= seq!['.', '.', '.']);
}

/// Follow mode shows as ` [LIVE] ` at the end of the status bar, whatever
/// the row counts; and the bars with follow mode on and off differ only by
/// ` [LIVE]` before the final space (off, the bar ends with the filter name
/// and a space).
pub proof fn law_status_live_marker(m: AppModel)
    ensures
        m.follow ==> status_text(m).len() >= 8 && status_text(m).subrange(
            status_text(m).len() - 8,
            status_text(m).len() as int,
        ) == " [LIVE] "@,
        status_text(AppModel { follow: true, ..m }) == status_text(
            AppModel { follow: false, ..m },
        ).drop_last() + " [LIVE] "@,
        !m.follow ==> status_text(m).len() >= m.filter_name().len() + 1 && status_text(m).subrange(
            status_text(m).len() - m.filter_name().len() - 1,
            status_text(m).len() as int,
        ) == m.filter_name().push(' '),
{
    reveal_strlit(" [LIVE]");
    reveal_strlit(" [LIVE] ");
    let on = AppModel { follow: true, ..m };
    let off = AppModel { follow: false, ..m };
    let base = " Gader | "@ + decimal(m.visible_len() as nat) + seq!['/'] + decimal(m.logs.len())
        + " logs | Filter: "@ + m.filter_name();
    assert(on.visible_len() == m.visible_len());
    assert(off.visible_len() == m.visible_len());
    assert(status_text(on) =~= base + " [LIVE]"@ + seq![' ']);
    assert(status_text(off) =~= base + seq![' ']);
    assert(status_text(off).drop_last() =~= base);
    assert(status_text(on) =~= base + " [LIVE] "@);
    if m.follow {
        assert(status_text(m) == status_text(on));
        assert(status_text(m).subrange(status_text(m).len() - 8, status_text(m).len() as int)
            =~= " [LIVE] "@);
    } else {
        assert(status_text(m) == status_text(off));
        assert(status_text(m).subrange(
            status_text(m).len() - m.filter_name().len() - 1,
            status_text(m).len() as int,
        ) =~= m.filter_name().push(' '));
    }
}

/// The value of a decimal digit character (`0` to `9`), or -1.
pub open spec fn digit_value(c: char) -> int {
    if '0' <= c <= '9' {
        c as u32 - '0' as u32
    } else {
        -1
    }
}

/// The number a string of decimal digits denotes.
pub open spec fn number_of(s: Seq<char>) -> int
    decreases s.len(),
{
    if s.len() == 0 {
        0
    } else {
        number_of(s.drop_last()) * 10 + digit_value(s.last())
    }
}

proof fn lemma_digit_char(d: int)
    requires
        0 <= d < 10,
    ensures
        digit_value(digit_char(d)) == d,
{
}

/// The decimal notation of `n` is a non-empty string of digits, without a
/// leading zero (unless `n` is 0), that denotes `n`.
pub proof fn law_decimal_denotes(n: nat)
    ensures
        decimal(n).len() >= 1,
        forall|i: int| 0 <= i < decimal(n).len() ==> 0 <= #[trigger] digit_value(decimal(n)[i]) < 10,
        number_of(decimal(n)) == n,
        n > 0 ==> decimal(n)[0] != '0',
    decreases n,
{
    if n < 10 {
        lemma_digit_char(n as int);
        assert(decimal(n).drop_last() =~= Seq::<char>::empty());
        assert(number_of(decimal(n)) == number_of(Seq::<char>::empty()) * 10 + n);
    } else {
        law_decimal_denotes(n / 10);
        lemma_digit_char((n % 10) as int);
        let d = decimal(n);
        assert(d.drop_last() =~= decimal(n / 10));
        assert(d[0] == decimal(n / 10)[0]);
        assert(d.last() == digit_char((n % 10) as int));
        vstd::arithmetic::div_mod::lemma_fundamental_div_mod(n as int, 10);
        assert(number_of(d) == number_of(decimal(n / 10)) * 10 + (n % 10) as int);
        assert forall|i: int| 0 <= i < d.len() implies 0 <= #[trigger] digit_value(d[i]) < 10 by {
            if i < d.len() - 1 {
                assert(d[i] == decimal(n / 10)[i]);
            }
        }
    }
}

} // verus!
