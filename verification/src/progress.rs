//! The line that shows the progress of a download.

use vstd::prelude::*;
use vstd::utf8::encode_utf8;

verus! {

/// What stands before the progress bar.
pub open spec fn precedent() -> Seq<char> {
    "=> Downloading: ["@
}

/// What stands behind the progress bar: how much has come, how fast, and how long it will take.
pub open spec fn succedent_text(percentage: Seq<char>, speed: Seq<char>, eta: Seq<char>) -> Seq<char> {
    "] "@ + percentage + "% "@ + speed + " ETA "@ + eta
}

/// `n` times the character `c`.
pub open spec fn repeated(c: char, n: nat) -> Seq<char> {
    Seq::new(n, |i: int| c)
}

/// How many characters the bar can have on a line of `width` characters with `succedent` behind
/// it; nothing where there is no room for a bar.
pub open spec fn bar_room(width: u16, succedent: Seq<char>) -> Option<u16> {
    let rest = precedent().len() + encode_utf8(succedent).len() + 4;
    if rest < width {
        Some((width - rest) as u16)
    } else {
        None
    }
}

/// The line with a bar of `num_all` characters of which `num_finished` show what has come.
pub open spec fn bar_line(num_all: u16, num_finished: u16, succedent: Seq<char>) -> Seq<char> {
    "\r"@ + precedent() + repeated('>', num_finished as nat) + repeated(
        '-',
        if num_finished <= num_all {
            (num_all - num_finished) as nat
        } else {
            0
        },
    ) + succedent
}

/// The line without a bar.
pub open spec fn fallback_line(percentage: Seq<char>) -> Seq<char> {
    "\r"@ + "=> Progress: "@ + percentage + "%"@
}

/// A line with a bar leaves the last four characters of the terminal's line free.
pub proof fn law_line_fits(width: u16, num_finished: u16, succedent: Seq<char>)
    requires
        bar_room(width, succedent) matches Some(num_all) && num_finished <= num_all,
        encode_utf8(succedent).len() == succedent.len(),
    ensures
        bar_line(bar_room(width, succedent)->0, num_finished, succedent).skip(1).len() == width - 4,
{
    reveal_strlit("\r");
}

/// Writes what stands behind the progress bar.
pub fn build_succedent(percentage: &str, speed: &str, eta: &str) -> (succedent: String)
    ensures
        succedent@ == succedent_text(percentage@, speed@, eta@),
{
    let mut succedent = "] ".to_owned();
    succedent.append(percentage);
    succedent.append("% ");
    succedent.append(speed);
    succedent.append(" ETA ");
    succedent.append(eta);
    succedent
}

/// How many characters the bar can have; nothing where the width of the terminal is not known, or
/// where there is no room.
pub fn room_for_bar(width: Option<u16>, succedent: &str) -> (room: Option<u16>)
    ensures
        room == (match width {
            Some(width) => bar_room(width, succedent@),
            None => None,
        }),
{
    match width {
        Some(width) => {
            proof {
                reveal_strlit("=> Downloading: [");
            }
            let len: usize = succedent.as_bytes().len();
            if len >= width as usize || 17 + len + 4 >= width as usize {
                None
            } else {
                Some(width - 4 - 17 - len as u16)
            }
        },
        None => None,
    }
}

fn push_times(line: &mut String, c: char, n: u16)
    ensures
        final(line)@ == old(line)@ + repeated(c, n as nat),
{
    let ghost before = line@;
    let mut i: u16 = 0;
    while i < n
        invariant
            i <= n,
            line@ == before + repeated(c, i as nat),
        decreases n - i,
    {
        line.push(c);
        assert(line@ =~= before + repeated(c, (i + 1) as nat));
        i += 1;
    }
    assert(line@ =~= before + repeated(c, n as nat));
}

/// Writes the line with a bar.
pub fn progress_bar(num_all: u16, num_finished: u16, succedent: &str) -> (line: String)
    ensures
        line@ == bar_line(num_all, num_finished, succedent@),
{
    // Back to the head of the line
    let mut line = "\r".to_owned();
    line.append("=> Downloading: [");
    push_times(&mut line, '>', num_finished);
    let left: u16 = if num_finished <= num_all {
        num_all - num_finished
    } else {
        0
    };
    push_times(&mut line, '-', left);
    line.append(succedent);
    line
}

/// Writes the line without a bar.
pub fn print_progress_fallback(percentage: &str) -> (line: String)
    ensures
        line@ == fallback_line(percentage@),
{
    let mut line = "\r".to_owned();
    line.append("=> Progress: ");
    line.append(percentage);
    line.append("%");
    line
}

/// Writes the line that shows the progress: with a bar where there is room for one, and
/// otherwise with `percentage` alone.
pub fn print_progress(room: Option<u16>, num_finished: u16, succedent: &str, percentage: &str) -> (line: String)
    ensures
        line@ == (match room {
            Some(num_all) => bar_line(num_all, num_finished, succedent@),
            None => fallback_line(percentage@),
        }),
{
    match room {
        Some(num_all) => progress_bar(num_all, num_finished, succedent),
        None => print_progress_fallback(percentage),
    }
}

/// The line with a bar goes back to the start, then comes the text before the bar, then as many
/// `>` as have come, then a `-` for each character of the bar that is left, and then the text
/// behind it, and nothing else.
pub proof fn law_bar_shows_what_has_come(num_all: u16, num_finished: u16, succedent: Seq<char>, i: int)
    requires
        num_finished <= num_all,
    ensures
        ({
            let line = bar_line(num_all, num_finished, succedent);
            &&& line.len() == 18 + num_all + succedent.len()
            &&& line.take(18) == "\r"@ + "=> Downloading: ["@
            &&& 18 <= i < 18 + num_finished ==> line[i] == '>'
            &&& 18 + num_finished <= i < 18 + num_all ==> line[i] == '-'
            &&& line.skip(18 + num_all) == succedent
        }),
{
    reveal_strlit("\r");
    reveal_strlit("=> Downloading: [");
    let line = bar_line(num_all, num_finished, succedent);
    assert(line.take(18) =~= "\r"@ + "=> Downloading: ["@);
    assert(line.skip(18 + num_all) =~= succedent);
}

/// Where more has come than the bar has characters, the bar shows that much and nothing is left.
pub proof fn law_bar_may_be_full(num_all: u16, num_finished: u16, succedent: Seq<char>)
    requires
        num_all <= num_finished,
    ensures
        bar_line(num_all, num_finished, succedent) == bar_line(num_finished, num_finished, succedent),
{
}

/// The bar has all characters of the line but those of the texts around it and four more, and
/// there is a bar exactly where that leaves at least one.
pub proof fn law_bar_fills_the_line(width: u16, succedent: Seq<char>)
    ensures
        bar_room(width, succedent) is Some <==> width >= encode_utf8(succedent).len() + 22,
        bar_room(width, succedent) matches Some(room) ==> room == width - encode_utf8(succedent).len() - 21,
{
    reveal_strlit("=> Downloading: [");
}

/// The texts show the figures as they are given, in this order.
pub proof fn law_figures_are_shown(percentage: Seq<char>, speed: Seq<char>, eta: Seq<char>)
    ensures
        succedent_text(percentage, speed, eta) == seq![']', ' '] + percentage + seq!['%', ' '] + speed + seq![
            ' ',
            'E',
            'T',
            'A',
            ' ',
        ] + eta,
        fallback_line(percentage) == "\r=> Progress: "@ + percentage + seq!['%'],
        precedent() == "=> Downloading: ["@,
{
    reveal_strlit("] ");
    reveal_strlit("% ");
    reveal_strlit(" ETA ");
    reveal_strlit("\r");
    reveal_strlit("=> Progress: ");
    reveal_strlit("\r=> Progress: ");
    reveal_strlit("%");
    assert("] "@ =~= seq![']', ' ']);
    assert("% "@ =~= seq!['%', ' ']);
    assert(" ETA "@ =~= seq![' ', 'E', 'T', 'A', ' ']);
    assert("%"@ =~= seq!['%']);
    assert("\r"@ + "=> Progress: "@ =~= "\r=> Progress: "@);
}

} // verus!
