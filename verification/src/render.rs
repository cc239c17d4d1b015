//! The text that a report is shown as.

use vstd::prelude::*;
use vstd::string::StringExecFns;
use crate::culprits::CulpritSet;
use crate::report::{CrashReport, KnownCause, ReportView};
use crate::tally::Tally;
use crate::text::push_char;

verus! {

/// The character of the digit `d`.
pub open spec fn digit(d: nat) -> char {
    if d == 0 {
        '0'
    } else if d == 1 {
        '1'
    } else if d == 2 {
        '2'
    } else if d == 3 {
        '3'
    } else if d == 4 {
        '4'
    } else if d == 5 {
        '5'
    } else if d == 6 {
        '6'
    } else if d == 7 {
        '7'
    } else if d == 8 {
        '8'
    } else {
        '9'
    }
}

/// `n` in decimal digits, without leading zeros.
pub open spec fn decimal(n: nat) -> Seq<char>
    decreases n,
{
    if n < 10 {
        seq![digit(n)]
    } else {
        decimal(n / 10).push(digit(n % 10))
    }
}

/// The line of one entry of a tally: a dash, the count, an `x`, the message.
pub open spec fn entry_line(entry: (Seq<char>, nat)) -> Seq<char> {
    "- "@ + decimal(entry.1) + "x "@ + entry.0 + "\n"@
}

/// The lines of the entries of `tally`, in their order.
pub open spec fn entry_lines(tally: Seq<(Seq<char>, nat)>) -> Seq<char>
    decreases tally.len(),
{
    if tally.len() == 0 {
        Seq::empty()
    } else {
        entry_lines(tally.drop_last()) + entry_line(tally.last())
    }
}

/// The section of a tally: its title and its entries; nothing for an empty tally.
pub open spec fn tally_section(title: Seq<char>, tally: Seq<(Seq<char>, nat)>) -> Seq<char> {
    if tally.len() == 0 {
        Seq::empty()
    } else {
        title + entry_lines(tally)
    }
}

/// The culprits, one to a line, in their order.
pub open spec fn culprit_lines(culprits: Seq<Seq<char>>) -> Seq<char>
    decreases culprits.len(),
{
    if culprits.len() == 0 {
        Seq::empty()
    } else {
        culprit_lines(culprits.drop_last()) + culprits.last() + "\n"@
    }
}

/// The lines of the crash message; nothing without one.
pub open spec fn crash_section(message: Option<Seq<char>>) -> Seq<char> {
    match message {
        Some(text) => "crash happened at: "@ + text + "\n"@,
        None => Seq::empty(),
    }
}

/// The closing lines for a known cause; nothing without one.
pub open spec fn hint_section(hint: Option<KnownCause>) -> Seq<char> {
    match hint {
        Some(KnownCause::GameCrash) =>
            "\nThis is most likely a game crash, and there is nothing we can do about it.\n"@,
        Some(KnownCause::NvidiaSmoothMotion) =>
            "\nThis is most likely caused by NVIDIA Smooth Motion, try disabling it.\n"@,
        None => Seq::empty(),
    }
}

/// The text of a report: the skipped extensions, the failed assertions, the
/// crash message, the culprits and the known cause, in this order. The
/// report of an exit for an unknown cause is one sentence.
pub open spec fn rendered(report: ReportView) -> Seq<char> {
    if report.game_exited_unknown_cause {
        "\nGame crashed on exit with an unknown cause.\n"@
    } else {
        tally_section("Skipped extensions:\n"@, report.skipped_extensions) + tally_section(
            "Intercepted GW2 assertion fails:\n"@,
            report.assertion_fails,
        ) + "\n"@ + crash_section(report.crash_message) + "\n"@ + "Likely culprits:\n"@
            + culprit_lines(report.culprits) + hint_section(report.known_cause_hint)
    }
}

/// The character of the digit `d`.
pub fn digit_char(d: usize) -> (c: char)
    requires
        d < 10,
    ensures
        c == digit(d as nat),
{
    if d == 0 {
        '0'
    } else if d == 1 {
        '1'
    } else if d == 2 {
        '2'
    } else if d == 3 {
        '3'
    } else if d == 4 {
        '4'
    } else if d == 5 {
        '5'
    } else if d == 6 {
        '6'
    } else if d == 7 {
        '7'
    } else if d == 8 {
        '8'
    } else {
        '9'
    }
}

/// Appends `n` in decimal digits to `out`.
pub fn push_decimal(out: &mut String, n: usize)
    ensures
        final(out)@ == old(out)@ + decimal(n as nat),
    decreases n,
{
    if n >= 10 {
        push_decimal(out, n / 10);
    }
    push_char(out, digit_char(n % 10));
    assert(out@ =~= old(out)@ + decimal(n as nat));
}

/// Appends the section of `tally` under `title` to `out`.
pub fn push_tally_section(out: &mut String, title: &str, tally: &Tally)
    ensures
        final(out)@ == old(out)@ + tally_section(title@, tally@),
{
    if tally.is_empty() {
        assert(out@ =~= old(out)@ + tally_section(title@, tally@));
        return ;
    }
    out.append(title);
    let mut i: usize = 0;
    assert(tally@.take(0) =~= Seq::<(Seq<char>, nat)>::empty());
    assert(out@ =~= old(out)@ + title@ + entry_lines(tally@.take(0)));
    while i < tally.len()
        invariant
            i <= tally@.len(),
            out@ == old(out)@ + title@ + entry_lines(tally@.take(i as int)),
        decreases tally@.len() - i,
    {
        let ghost before = out@;
        out.append("- ");
        push_decimal(out, tally.count(i));
        out.append("x ");
        out.append(tally.key(i).as_str());
        out.append("\n");
        proof {
            let upto = tally@.take(i + 1);
            assert(upto.drop_last() =~= tally@.take(i as int));
            assert(upto.last() == tally@[i as int]);
            assert(out@ =~= before + entry_line(tally@[i as int]));
            assert(out@ =~= old(out)@ + title@ + entry_lines(upto));
        }
        i += 1;
    }
    assert(tally@.take(i as int) =~= tally@);
    assert(out@ =~= old(out)@ + tally_section(title@, tally@));
}

/// Appends the culprits to `out`, one to a line.
pub fn push_culprit_lines(out: &mut String, culprits: &CulpritSet)
    ensures
        final(out)@ == old(out)@ + culprit_lines(culprits@),
{
    let mut i: usize = 0;
    assert(culprits@.take(0) =~= Seq::<Seq<char>>::empty());
    assert(out@ =~= old(out)@ + culprit_lines(culprits@.take(0)));
    while i < culprits.len()
        invariant
            i <= culprits@.len(),
            out@ == old(out)@ + culprit_lines(culprits@.take(i as int)),
        decreases culprits@.len() - i,
    {
        let ghost before = out@;
        out.append(culprits.get(i).as_str());
        out.append("\n");
        proof {
            let upto = culprits@.take(i + 1);
            assert(upto.drop_last() =~= culprits@.take(i as int));
            assert(upto.last() == culprits@[i as int]);
            assert(out@ =~= before + culprits@[i as int] + "\n"@);
            assert(out@ =~= old(out)@ + culprit_lines(upto));
        }
        i += 1;
    }
    assert(culprits@.take(i as int) =~= culprits@);
}

/// The text that `report` is shown as.
pub fn render(report: &CrashReport) -> (text: String)
    ensures
        text@ == rendered(report@),
{
    let mut out = String::new();
    if report.game_exited_unknown_cause {
        out.append("\nGame crashed on exit with an unknown cause.\n");
        assert(out@ =~= rendered(report@));
        return out;
    }
    push_tally_section(&mut out, "Skipped extensions:\n", &report.skipped_extensions);
    push_tally_section(&mut out, "Intercepted GW2 assertion fails:\n", &report.assertion_fails);
    out.append("\n");
    let ghost head = out@;
    match &report.crash_message {
        Some(message) => {
            out.append("crash happened at: ");
            out.append(message.as_str());
            out.append("\n");
        },
        None => {},
    }
    assert(out@ =~= head + crash_section(report@.crash_message));
    out.append("\n");
    out.append("Likely culprits:\n");
    push_culprit_lines(&mut out, &report.culprits);
    let ghost body = out@;
    match report.known_cause_hint {
        Some(KnownCause::GameCrash) => {
            out.append(
                "\nThis is most likely a game crash, and there is nothing we can do about it.\n",
            );
        },
        Some(KnownCause::NvidiaSmoothMotion) => {
            out.append(
                "\nThis is most likely caused by NVIDIA Smooth Motion, try disabling it.\n",
            );
        },
        None => {},
    }
    assert(out@ =~= body + hint_section(report@.known_cause_hint));
    assert(out@ =~= rendered(report@));
    out
}

} // verus!
