//! Dice commands: what each one rolls and the report it writes.
use vstd::prelude::*;

use crate::dice::{dice, is_face, runaway_text};
use crate::text::{int_text, int_to_string, push_int};

verus! {

/// A command of the bot.
#[derive(Debug)]
pub enum Command {
    /// `Roll(sides, n)`: `n` dice with `sides` faces.
    Roll(i64, i64),
    /// A Warhammer test against a score.
    Warhammer { score: i64 },
    Pouet,
    Coupable,
    /// A Shadowrun pool: number of dice and an optional goal.
    Shadowrun(i64, Option<i64>),
    /// A Degenesis pool: score and an optional goal.
    Degenesis(i64, Option<i64>),
    /// A Trudvang roll: number of dice, explosion threshold, bonus.
    Trudvang(i64, i64, i64),
    Help,
    /// Repeats the given text.
    Say(String),
    /// A Brigandine damage roll exploding at the given threshold.
    Brigandine { explode_tresh: i64 },
    /// Several commands, run in order.
    CmdList(Vec<Command>),
    /// A command with a comment in front of it.
    CommentedCmd(String, Box<Command>),
}

/// Number of iterations of a loop over `0..n`.
pub open spec fn range_len(n: i64) -> nat {
    if n > 0 {
        n as nat
    } else {
        0
    }
}

/// Every entry of `rolls` is a face of a die with `n_faces` faces.
pub open spec fn all_faces(rolls: Seq<i64>, n_faces: i64) -> bool {
    forall|i: int| 0 <= i < rolls.len() ==> is_face(#[trigger] rolls[i], n_faces)
}

/// `rolls` is in ascending order.
pub open spec fn is_sorted(rolls: Seq<i64>) -> bool {
    forall|i: int, j: int| 0 <= i <= j < rolls.len() ==> rolls[i] <= rolls[j]
}

/// Number of entries of `rolls` that are at least `k`.
pub open spec fn count_at_least(rolls: Seq<i64>, k: i64) -> nat
    decreases rolls.len(),
{
    if rolls.len() == 0 {
        0
    } else {
        count_at_least(rolls.drop_last(), k) + if rolls.last() >= k {
            1nat
        } else {
            0nat
        }
    }
}

/// Number of entries of `rolls` equal to `k`.
pub open spec fn count_equal(rolls: Seq<i64>, k: i64) -> nat
    decreases rolls.len(),
{
    if rolls.len() == 0 {
        0
    } else {
        count_equal(rolls.drop_last(), k) + if rolls.last() == k {
            1nat
        } else {
            0nat
        }
    }
}

/// Sum of the entries of `rolls`.
pub open spec fn sum_of(rolls: Seq<i64>) -> int
    decreases rolls.len(),
{
    if rolls.len() == 0 {
        0
    } else {
        sum_of(rolls.drop_last()) + rolls.last()
    }
}

/// The rolls, each preceded by one space: `" 3 5 1"`.
pub open spec fn spaced(rolls: Seq<i64>) -> Seq<char>
    decreases rolls.len(),
{
    if rolls.len() == 0 {
        Seq::empty()
    } else {
        spaced(rolls.drop_last()) + seq![' '] + int_text(rolls.last() as int)
    }
}

/// The rolls after the first, each preceded by a `+`: `"+3+5"`.
pub open spec fn plus_joined(rolls: Seq<i64>) -> Seq<char>
    decreases rolls.len(),
{
    if rolls.len() == 0 {
        Seq::empty()
    } else {
        plus_joined(rolls.drop_last()) + seq!['+'] + int_text(rolls.last() as int)
    }
}

/// Counts the entries that are at least `k`.
pub fn count_rolls_at_least(rolls: &Vec<i64>, k: i64) -> (c: usize)
    ensures
        c == count_at_least(rolls@, k),
        c <= rolls.len(),
{
    let mut c: usize = 0;
    let mut i: usize = 0;
    while i < rolls.len()
        invariant
            i <= rolls.len(),
            c == count_at_least(rolls@.take(i as int), k),
            c <= i,
        decreases rolls.len() - i,
    {
        assert(rolls@.take(i + 1).drop_last() =~= rolls@.take(i as int));
        if rolls[i] >= k {
            c = c + 1;
        }
        i = i + 1;
    }
    assert(rolls@.take(i as int) =~= rolls@);
    c
}

/// Counts the entries equal to `k`.
pub fn count_rolls_equal(rolls: &Vec<i64>, k: i64) -> (c: usize)
    ensures
        c == count_equal(rolls@, k),
        c <= rolls.len(),
{
    let mut c: usize = 0;
    let mut i: usize = 0;
    while i < rolls.len()
        invariant
            i <= rolls.len(),
            c == count_equal(rolls@.take(i as int), k),
            c <= i,
        decreases rolls.len() - i,
    {
        assert(rolls@.take(i + 1).drop_last() =~= rolls@.take(i as int));
        if rolls[i] == k {
            c = c + 1;
        }
        i = i + 1;
    }
    assert(rolls@.take(i as int) =~= rolls@);
    c
}

/// Appends the rolls, each preceded by one space.
pub fn push_spaced(s: &mut String, rolls: &Vec<i64>)
    ensures
        final(s)@ == old(s)@ + spaced(rolls@),
{
    let mut i: usize = 0;
    while i < rolls.len()
        invariant
            i <= rolls.len(),
            s@ == old(s)@ + spaced(rolls@.take(i as int)),
        decreases rolls.len() - i,
    {
        assert(rolls@.take(i + 1).drop_last() =~= rolls@.take(i as int));
        s.append(" ");
        push_int(s, rolls[i]);
        proof {
            reveal_strlit(" ");
        }
        assert(s@ =~= old(s)@ + spaced(rolls@.take(i + 1)));
        i = i + 1;
    }
    assert(rolls@.take(i as int) =~= rolls@);
}


/// Integer division rounding toward zero, as Rust's `/` on signed integers.
pub open spec fn trunc_div(a: int, b: int) -> int {
    if a >= 0 {
        a / b
    } else {
        -((-a) / b)
    }
}

/// The Warhammer report for a d100 roll `d` against `score`: a success when
/// `d <= score`, critical when `d` is a multiple of 11, with the difference of
/// the tens digits as degrees.
pub open spec fn warhammer_text(d: i64, score: i64) -> Seq<char> {
    let success = d <= score;
    let degrees = if success {
        trunc_div(score as int, 10) - trunc_div(d as int, 10)
    } else {
        trunc_div(d as int, 10) - trunc_div(score as int, 10)
    };
    let verdict = if d % 11 == 0 {
        if success {
            ": Réussite critique de "@
        } else {
            ": Échec critique de "@
        }
    } else {
        if success {
            ": Réussite de "@
        } else {
            ": Échec de "@
        }
    };
    int_text(d as int) + verdict + int_text(degrees) + " degrés"@
}

/// Writes the Warhammer report for the d100 roll `d` against `score`.
pub fn warhammer_report(d: i64, score: i64) -> (report: String)
    requires
        1 <= d <= 100,
    ensures
        report@ == warhammer_text(d, score),
{
    let mut out = int_to_string(d);
    let degrees: i64;
    if d <= score {
        degrees = score / 10 - d / 10;
    } else {
        degrees = d / 10 - score / 10;
    }
    if d % 11 == 0 {
        if d <= score {
            out.append(": Réussite critique de ");
        } else {
            out.append(": Échec critique de ");
        }
    } else {
        if d <= score {
            out.append(": Réussite de ");
        } else {
            out.append(": Échec de ");
        }
    }
    push_int(&mut out, degrees);
    out.append(" degrés");
    assert(out@ =~= warhammer_text(d, score));
    out
}


/// The closing verdict of a Shadowrun report.
pub open spec fn shadowrun_verdict(hits: int, ones: int, goal: Option<i64>) -> Seq<char> {
    match goal {
        Some(g) => if g <= hits {
            "Réussite ("@ + int_text(hits) + "/"@ + int_text(g as int) + ")"@
        } else if ones > hits {
            "Échec critique! ("@ + int_text(hits) + "/"@ + int_text(g as int) + ")"@
        } else {
            "Échec ("@ + int_text(hits) + "/"@ + int_text(g as int) + ")"@
        },
        None => if ones > hits {
            int_text(hits) + " réussites (Risque d'échec critique)"@
        } else {
            int_text(hits) + " réussites"@
        },
    }
}

/// The Shadowrun report for sorted `dies` and an optional goal: hits are
/// dice of 5 or more, a glitch is more ones than hits.
pub open spec fn shadowrun_text(dies: Seq<i64>, goal: Option<i64>) -> Seq<char> {
    let hits = count_at_least(dies, 5) as int;
    let ones = count_equal(dies, 1) as int;
    let complication = if ones > hits {
        "Complication - "@
    } else {
        Seq::empty()
    };
    "["@ + spaced(dies) + "]\n"@ + complication + shadowrun_verdict(hits, ones, goal)
}

fn push_shadowrun_verdict(out: &mut String, hits: i64, ones: i64, goal: Option<i64>)
    ensures
        final(out)@ == old(out)@ + shadowrun_verdict(hits as int, ones as int, goal),
{
    match goal {
        Some(g) => {
            if g <= hits {
                out.append("Réussite (");
            } else if ones > hits {
                out.append("Échec critique! (");
            } else {
                out.append("Échec (");
            }
            push_int(out, hits);
            out.append("/");
            push_int(out, g);
            out.append(")");
        },
        None => {
            push_int(out, hits);
            if ones > hits {
                out.append(" réussites (Risque d'échec critique)");
            } else {
                out.append(" réussites");
            }
        },
    }
    assert(final(out)@ =~= old(out)@ + shadowrun_verdict(hits as int, ones as int, goal));
}

/// Writes the Shadowrun report for the (sorted) `dies`.
pub fn shadowrun_report(dies: &Vec<i64>, goal: Option<i64>) -> (report: String)
    requires
        dies.len() <= i64::MAX,
    ensures
        report@ == shadowrun_text(dies@, goal),
{
    let hits = count_rolls_at_least(dies, 5);
    let ones = count_rolls_equal(dies, 1);
    let hits_i: i64 = hits as i64;
    let ones_i: i64 = ones as i64;
    let mut out = String::from_str("[");
    push_spaced(&mut out, dies);
    out.append("]\n");
    if ones > hits {
        out.append("Complication - ");
    }
    push_shadowrun_verdict(&mut out, hits_i, ones_i, goal);
    assert(out@ =~= shadowrun_text(dies@, goal));
    out
}

/// The part of a Degenesis summary about automatic successes.
pub open spec fn automatic_part(automatic: int) -> Seq<char> {
    if automatic == 0 {
        Seq::empty()
    } else {
        "("@ + int_text(automatic) + " automatiques) "@
    }
}

/// The part of a Degenesis summary about triggers.
pub open spec fn trigger_part(triggers: int) -> Seq<char> {
    if triggers == 0 {
        Seq::empty()
    } else {
        "dont "@ + int_text(triggers) + " triggers"@
    }
}

/// The closing analysis of a Degenesis report.
pub open spec fn degenesis_analysis(successes: int, ones: int, goal: Option<i64>) -> Seq<char> {
    match goal {
        Some(g) => if successes >= g {
            "Réussite ("@ + int_text(successes) + " sur "@ + int_text(g as int) + ")"@
        } else if ones > successes {
            "Échec critique!"@
        } else {
            "Échec"@
        },
        None => if ones > successes {
            "Possibilité d'échec critique"@
        } else {
            Seq::empty()
        },
    }
}

/// Number of dice a Degenesis score rolls: the score, at most 12.
pub open spec fn degenesis_pool(n: i64) -> nat {
    if n < 12 {
        range_len(n)
    } else {
        12
    }
}

/// The Degenesis report for a score `n` and its sorted `dies`: every point of
/// score beyond the dice is an automatic success, dice of 4 or more succeed,
/// sixes are triggers, more ones than successes is a botch.
pub open spec fn degenesis_text(n: i64, dies: Seq<i64>, goal: Option<i64>) -> Seq<char> {
    let automatic = n - dies.len();
    let successes = count_at_least(dies, 4) + automatic;
    let triggers = count_equal(dies, 6) as int;
    let ones = count_equal(dies, 1) as int;
    "["@ + spaced(dies) + "]\n"@ + int_text(successes) + " réussites "@ + automatic_part(automatic)
        + trigger_part(triggers) + "\n"@ + degenesis_analysis(successes, ones, goal)
}

fn push_degenesis_analysis(out: &mut String, successes: i64, ones: i64, goal: Option<i64>)
    ensures
        final(out)@ == old(out)@ + degenesis_analysis(successes as int, ones as int, goal),
{
    match goal {
        Some(g) => {
            if successes >= g {
                out.append("Réussite (");
                push_int(out, successes);
                out.append(" sur ");
                push_int(out, g);
                out.append(")");
            } else if ones > successes {
                out.append("Échec critique!");
            } else {
                out.append("Échec");
            }
        },
        None => {
            if ones > successes {
                out.append("Possibilité d'échec critique");
            }
        },
    }
    assert(final(out)@ =~= old(out)@ + degenesis_analysis(successes as int, ones as int, goal));
}

/// Writes the Degenesis report for the score `n` and its (sorted) `dies`.
pub fn degenesis_report(n: i64, dies: &Vec<i64>, goal: Option<i64>) -> (report: String)
    requires
        dies.len() == degenesis_pool(n),
    ensures
        report@ == degenesis_text(n, dies@, goal),
{
    let len: i64 = dies.len() as i64;
    let automatic: i64 = n - len;
    let high = count_rolls_at_least(dies, 4);
    let successes: i64 = high as i64 + automatic;
    let triggers = count_rolls_equal(dies, 6);
    let ones = count_rolls_equal(dies, 1);
    let mut out = String::from_str("[");
    push_spaced(&mut out, dies);
    out.append("]\n");
    push_int(&mut out, successes);
    out.append(" réussites ");
    let ghost before_auto = out@;
    if automatic != 0 {
        out.append("(");
        push_int(&mut out, automatic);
        out.append(" automatiques) ");
    }
    assert(out@ =~= before_auto + automatic_part(automatic as int));
    let ghost before_trig = out@;
    if triggers != 0 {
        out.append("dont ");
        push_int(&mut out, triggers as i64);
        out.append(" triggers");
    }
    assert(out@ =~= before_trig + trigger_part(triggers as int));
    out.append("\n");
    push_degenesis_analysis(&mut out, successes, ones as i64, goal);
    assert(out@ =~= degenesis_text(n, dies@, goal));
    out
}


/// The views of a list of roll vectors.
pub open spec fn roll_lists(chains: Seq<Vec<i64>>) -> Seq<Seq<i64>> {
    chains.map_values(|v: Vec<i64>| v@)
}

/// Every roll is a face of a d10 and no run is longer than an exploding die allows.
pub open spec fn d10_runs(chains: Seq<Seq<i64>>) -> bool {
    forall|i: int|
        0 <= i < chains.len() ==> {
            &&& (#[trigger] chains[i]).len() <= 1001
            &&& forall|j: int| 0 <= j < chains[i].len() ==> 1 <= #[trigger] chains[i][j] <= 10
        }
}

/// Sum of all rolls of all runs.
pub open spec fn total_of(chains: Seq<Seq<i64>>) -> int
    decreases chains.len(),
{
    if chains.len() == 0 {
        0
    } else {
        total_of(chains.drop_last()) + sum_of(chains.last())
    }
}

/// The runs, latest first, each in brackets: `"[ 4 2] [ 10 3] "`.
pub open spec fn bracketed_runs(chains: Seq<Seq<i64>>) -> Seq<char>
    decreases chains.len(),
{
    if chains.len() == 0 {
        Seq::empty()
    } else {
        "["@ + spaced(chains.last()) + "] "@ + bracketed_runs(chains.drop_last())
    }
}

/// The Trudvang report: every run of exploding dice, then their total plus the
/// bonus. `None` when the total, or the total plus the bonus, does not fit in an `i64`.
pub open spec fn trudvang_text(chains: Seq<Seq<i64>>, bonus: i64) -> Option<Seq<char>> {
    let total = total_of(chains);
    if total > i64::MAX || total + bonus > i64::MAX {
        None
    } else {
        Some(bracketed_runs(chains) + "\n"@ + "Total: "@ + int_text(total + bonus))
    }
}

proof fn lemma_sum_prefix(rolls: Seq<i64>, j: int)
    requires
        0 <= j <= rolls.len(),
        forall|k: int| 0 <= k < rolls.len() ==> 0 <= #[trigger] rolls[k],
    ensures
        0 <= sum_of(rolls.take(j)) <= sum_of(rolls),
    decreases rolls.len(),
{
    if j < rolls.len() {
        lemma_sum_prefix(rolls.drop_last(), j);
        assert(rolls.drop_last().take(j) =~= rolls.take(j));
    } else {
        assert(rolls.take(j) =~= rolls);
        if rolls.len() > 0 {
            lemma_sum_prefix(rolls.drop_last(), j - 1);
            assert(rolls.drop_last().take(j - 1) =~= rolls.drop_last());
        }
    }
}

proof fn lemma_total_prefix(chains: Seq<Seq<i64>>, i: int)
    requires
        0 <= i <= chains.len(),
        d10_runs(chains),
    ensures
        0 <= total_of(chains.take(i)) <= total_of(chains),
    decreases chains.len(),
{
    if chains.len() > 0 {
        let last = chains.last();
        assert(chains[chains.len() - 1] == last);
        assert forall|k: int| 0 <= k < last.len() implies 0 <= #[trigger] last[k] by {
            assert(chains[chains.len() - 1][k] == last[k]);
        }
        lemma_sum_prefix(last, last.len() as int);
        assert(last.take(last.len() as int) =~= last);
        assert(d10_runs(chains.drop_last())) by {
            assert forall|m: int| 0 <= m < chains.drop_last().len() implies #[trigger] chains.drop_last()[m]
                == chains[m] by {}
        }
        if i < chains.len() {
            lemma_total_prefix(chains.drop_last(), i);
            assert(chains.drop_last().take(i) =~= chains.take(i));
        } else {
            lemma_total_prefix(chains.drop_last(), i - 1);
            assert(chains.drop_last().take(i - 1) =~= chains.drop_last());
            assert(chains.take(i) =~= chains);
        }
    } else {
        assert(chains.take(i) =~= chains);
    }
}

/// Writes the Trudvang report for the runs of exploding d10s and the bonus;
/// `None` when the total overflows.
pub fn trudvang_report(chains: &Vec<Vec<i64>>, bonus: i64) -> (report: Option<String>)
    requires
        d10_runs(roll_lists(chains@)),
    ensures
        opt_view(report) == trudvang_text(roll_lists(chains@), bonus),
{
    let ghost runs = roll_lists(chains@);
    let mut line = String::new();
    let mut total: i64 = 0;
    let mut i: usize = 0;
    while i < chains.len()
        invariant
            runs == roll_lists(chains@),
            d10_runs(runs),
            i <= chains.len(),
            line@ == bracketed_runs(runs.take(i as int)),
            total == total_of(runs.take(i as int)),
            0 <= total,
        decreases chains.len() - i,
    {
        let run = &chains[i];
        assert(runs[i as int] == run@);
        assert(runs.take(i + 1).drop_last() =~= runs.take(i as int));
        assert(runs.take(i + 1).last() == run@);
        let mut next = String::from_str("[");
        push_spaced(&mut next, run);
        next.append("] ");
        next.append(line.as_str());
        line = next;
        let mut j: usize = 0;
        while j < run.len()
            invariant
                runs == roll_lists(chains@),
                d10_runs(runs),
                i < chains.len(),
                run@ == runs[i as int],
                runs.take(i + 1).drop_last() == runs.take(i as int),
                runs.take(i + 1).last() == run@,
                j <= run.len(),
                total == total_of(runs.take(i as int)) + sum_of(run@.take(j as int)),
                0 <= total,
            decreases run.len() - j,
        {
            assert(run@.take(j + 1).drop_last() =~= run@.take(j as int));
            assert(1 <= runs[i as int][j as int] <= 10);
            match total.checked_add(run[j]) {
                Some(t) => {
                    total = t;
                },
                None => {
                    proof {
                        assert forall|k: int| 0 <= k < run@.len() implies 0 <= #[trigger] run@[k] by {
                            assert(runs[i as int][k] == run@[k]);
                        }
                        lemma_sum_prefix(run@, j + 1);
                        lemma_total_prefix(runs, i + 1);
                    }
                    return None;
                },
            }
            j = j + 1;
        }
        assert(run@.take(j as int) =~= run@);
        i = i + 1;
    }
    assert(runs.take(i as int) =~= runs);
    let sum = match total.checked_add(bonus) {
        Some(s) => s,
        None => {
            return None;
        },
    };
    let mut out = line;
    out.append("\n");
    out.append("Total: ");
    push_int(&mut out, sum);
    assert(out@ =~= trudvang_text(runs, bonus).unwrap());
    Some(out)
}

/// Where a Brigandine hit lands, by its reversed d100 reading.
pub open spec fn location_name(inverse: int) -> Seq<char> {
    if 1 <= inverse <= 9 {
        "Tête"@
    } else if inverse == 10 {
        "Main gauche"@
    } else if 11 <= inverse <= 24 {
        "Bras gauche"@
    } else if inverse == 25 {
        "Main droite"@
    } else if 26 <= inverse <= 44 {
        "Bras droit"@
    } else if 45 <= inverse <= 69 {
        "Torse"@
    } else if 70 <= inverse <= 80 {
        "Abdomen"@
    } else if 81 <= inverse <= 88 {
        "Jambe gauche"@
    } else if inverse == 89 {
        "Pied gauche"@
    } else if 90 <= inverse <= 99 {
        "Jambe droite"@
    } else {
        "Pied droit"@
    }
}

/// The hit location table: defined for readings 1 through 100, and for nothing else.
pub fn hit_location(inverse: i64) -> (location: Option<&'static str>)
    ensures
        location is Some <==> 1 <= inverse <= 100,
        location matches Some(name) ==> name@ == location_name(inverse as int),
{
    if 1 <= inverse && inverse <= 9 {
        Some("Tête")
    } else if inverse == 10 {
        Some("Main gauche")
    } else if 11 <= inverse && inverse <= 24 {
        Some("Bras gauche")
    } else if inverse == 25 {
        Some("Main droite")
    } else if 26 <= inverse && inverse <= 44 {
        Some("Bras droit")
    } else if 45 <= inverse && inverse <= 69 {
        Some("Torse")
    } else if 70 <= inverse && inverse <= 80 {
        Some("Abdomen")
    } else if 81 <= inverse && inverse <= 88 {
        Some("Jambe gauche")
    } else if inverse == 89 {
        Some("Pied gauche")
    } else if 90 <= inverse && inverse <= 99 {
        Some("Jambe droite")
    } else if inverse == 100 {
        Some("Pied droit")
    } else {
        None
    }
}

/// The d100 test reading of a Brigandine roll: tens from the tens die, units
/// from the first unit die (a 10 reads 0).
pub open spec fn brigandine_test(unit: i64, tenth: i64) -> int {
    (tenth % 10) * 10 + unit % 10
}

/// The reversed reading that picks the hit location.
pub open spec fn brigandine_inverse(unit: i64, tenth: i64) -> int {
    (unit % 10) * 10 + tenth % 10
}

/// The Brigandine report for the run of exploding unit dice, the tens die and
/// the d100 that may call a "Macron Explosion". `None` when the reversed
/// reading falls outside the hit location table.
pub open spec fn brigandine_text(units: Seq<i64>, tenth: i64, macron: i64) -> Option<Seq<char>> {
    let inverse = brigandine_inverse(units[0], tenth);
    if 1 <= inverse <= 100 {
        let throw = int_text(units[0] as int) + plus_joined(units.skip(1));
        let explosion = if units.len() == 1 {
            Seq::empty()
        } else if macron == 1 {
            "(explosion: "@ + throw + ") Macron Explosion!"@
        } else {
            "(explosion: "@ + throw + ")"@
        };
        Some(
            "test: "@ + int_text(brigandine_test(units[0], tenth)) + " dégâts: "@ + int_text(
                sum_of(units),
            ) + "  "@ + explosion + "\n"@ + "localisation: "@ + location_name(inverse),
        )
    } else {
        None
    }
}

/// The view of an optional string.
pub open spec fn opt_view(s: Option<String>) -> Option<Seq<char>> {
    match s {
        Some(t) => Some(t@),
        None => None,
    }
}

/// Writes the Brigandine report; `None` when the hit location is missing from the table.
pub fn brigandine_report(units: &Vec<i64>, tenth: i64, macron: i64) -> (report: Option<String>)
    requires
        1 <= units.len() <= 1001,
        forall|j: int| 0 <= j < units.len() ==> 1 <= #[trigger] units[j] <= 10,
        1 <= tenth <= 10,
    ensures
        opt_view(report) == brigandine_text(units@, tenth, macron),
{
    let unit = units[0];
    let test: i64 = (tenth % 10) * 10 + unit % 10;
    let inverse: i64 = (unit % 10) * 10 + tenth % 10;
    let location = match hit_location(inverse) {
        Some(name) => name,
        None => {
            return None;
        },
    };
    let mut damages: i64 = 0;
    let mut i: usize = 0;
    while i < units.len()
        invariant
            1 <= units.len() <= 1001,
            forall|j: int| 0 <= j < units.len() ==> 1 <= #[trigger] units[j] <= 10,
            i <= units.len(),
            damages == sum_of(units@.take(i as int)),
            0 <= damages <= 10 * i,
        decreases units.len() - i,
    {
        assert(units@.take(i + 1).drop_last() =~= units@.take(i as int));
        damages = damages + units[i];
        i = i + 1;
    }
    assert(units@.take(i as int) =~= units@);
    let mut throw = int_to_string(unit);
    let mut k: usize = 1;
    while k < units.len()
        invariant
            1 <= k <= units.len(),
            throw@ == int_text(units@[0] as int) + plus_joined(units@.subrange(1, k as int)),
        decreases units.len() - k,
    {
        assert(units@.subrange(1, k + 1).drop_last() =~= units@.subrange(1, k as int));
        throw.append("+");
        push_int(&mut throw, units[k]);
        proof {
            reveal_strlit("+");
        }
        k = k + 1;
    }
    assert(units@.subrange(1, k as int) =~= units@.skip(1));
    let mut out = String::from_str("test: ");
    push_int(&mut out, test);
    out.append(" dégâts: ");
    push_int(&mut out, damages);
    out.append("  ");
    let ghost before = out@;
    if units.len() != 1 {
        out.append("(explosion: ");
        out.append(throw.as_str());
        if macron == 1 {
            out.append(") Macron Explosion!");
        } else {
            out.append(")");
        }
    }
    out.append("\n");
    out.append("localisation: ");
    out.append(location);
    assert(out@ =~= brigandine_text(units@, tenth, macron).unwrap());
    Some(out)
}


/// The help text: the syntax of every command, with examples.
pub const HELP_TEXT: &'static str = r#"
#Syntaxe
Les espaces sont ignorés, mettez en autant que vous voulez (ou pas du tout)
Un paramètre du type <n> est obligatoire
Un paramètre du type [n] est optionel

## Commande commentée
'commentaire': <n'importe quelle autre commande>

## liste de commandes
<commande 1> ; <commande 2> ; ...

## Dés normaux
commande: "d" ou "roll"

"?[nb de dés]d<nb de faces>"

Exemples:

?4d100
?d100
?10000d0 => oui bon

## Jets de warhammer v4
commande: "warhammer" OU "wh"

"?wh <score>"

Exemples:

?wh 64 => un jet sous 64
?wh 100 => un jet de CC à -30 pour Rudolf

## Shadowrun
commande: "sr" OU "shadowrun"

"?sr <score> [difficulté]"

Exemple:

?sr 10 => un jet à 10 dés
?sr 10 3 => un jet à 10 dés où on doit atteindre 3 réussites

## Degenesis
commande: "dg" OU "dege" OU "degenesis"

"?dg <score> [difficulté]"

Exemple:

?dg 10 => un jet à 10 dés
?dg 17 => un jet à 12 dés plus 5 réussites automatiques
?dg 5 3 => un jet à 5 dés où on doit atteindre 3 réussites

## Trudvang
commande: "trv" OU "trudvang" OU "trud"

"?trv[score] [JO <seuil>] [bonus/malus/bon/mal <bonus ou malus>]"

Exemples:

?trv => 1d10 tout simple qui n'explose pas
?trv 3 => 3d10 qui n'explosent pas
?trv JO 10 => 1d10 qui explose sur 10
?trv 4 JO 5 => 4d10 qui explosent sur 5 ou plus
?trv JO 0 => la mort du respect
?trv 4 JO 5 BON 2=> 4d10 qui explosent sur 5 ou plus avec un bonus de 2
?trv 4 JO 5 MAL 2=> 4d10 qui explosent sur 5 ou plus avec un malus de 2


## Brigandine
commande: "brig" ou "br" ou "brigandine"

"?br [seuil d'explosion]"

Exemples:

?br => jet de brigandine qui explose sur les 10
?br 9 => jet de brigandine qui explose sur 9+ 
?br 6 => jet de brigandine qui explose sur 6+ 
?br 1 => non

"#;

/// A d10 run that an exploding die with threshold `tresh` can give: every
/// roll but the last reaches the threshold, the last does not, at most 1001 rolls.
pub open spec fn d10_explosion(rolls: Seq<i64>, tresh: i64) -> bool {
    &&& 1 <= rolls.len() <= 1001
    &&& forall|i: int| 0 <= i < rolls.len() ==> 1 <= #[trigger] rolls[i] <= 10
    &&& forall|i: int| 0 <= i < rolls.len() - 1 ==> #[trigger] rolls[i] >= tresh
    &&& rolls.last() < tresh
}

/// 1001 d10 rolls that all reach the threshold: the die never stops exploding.
pub open spec fn d10_runaway(rolls: Seq<i64>, tresh: i64) -> bool {
    &&& rolls.len() == 1001
    &&& forall|i: int| 0 <= i < rolls.len() ==> 1 <= #[trigger] rolls[i] <= 10 && rolls[i] >= tresh
}

/// What a `Roll(sides, n)` can answer.
pub open spec fn roll_outcome(sides: i64, n: i64, out: Option<Seq<char>>) -> bool {
    exists|rolls: Seq<i64>|
        rolls.len() == range_len(n) && all_faces(rolls, sides) && out == Some(#[trigger] spaced(rolls))
}

/// What a Warhammer test can answer.
pub open spec fn warhammer_outcome(score: i64, out: Option<Seq<char>>) -> bool {
    exists|d: i64| 1 <= d <= 100 && out == Some(#[trigger] warhammer_text(d, score))
}

/// What a Shadowrun pool can answer.
pub open spec fn shadowrun_outcome(n: i64, goal: Option<i64>, out: Option<Seq<char>>) -> bool {
    exists|dies: Seq<i64>|
        dies.len() == range_len(n) && all_faces(dies, 6) && is_sorted(dies) && out == Some(
            #[trigger] shadowrun_text(dies, goal),
        )
}

/// What a Degenesis pool can answer.
pub open spec fn degenesis_outcome(n: i64, goal: Option<i64>, out: Option<Seq<char>>) -> bool {
    exists|dies: Seq<i64>|
        dies.len() == degenesis_pool(n) && all_faces(dies, 6) && is_sorted(dies) && out == Some(
            #[trigger] degenesis_text(n, dies, goal),
        )
}

/// What a Trudvang roll can answer: the runaway message when some die never
/// stops exploding, else the report of its runs.
pub open spec fn trudvang_outcome(n: i64, tresh: i64, bonus: i64, out: Option<Seq<char>>) -> bool {
    ||| (n > 0 && out == Some(runaway_text()) && exists|r: Seq<i64>| #[trigger] d10_runaway(r, tresh))
    ||| exists|chains: Seq<Seq<i64>>|
        chains.len() == range_len(n) && (forall|i: int|
            0 <= i < chains.len() ==> #[trigger] d10_explosion(chains[i], tresh)) && out
            == #[trigger] trudvang_text(chains, bonus)
}

/// What a Brigandine roll can answer, and the reversed readings it prints
/// (one, once the unit die has stopped exploding).
pub open spec fn brigandine_outcome(tresh: i64, out: Option<Seq<char>>, readings: Seq<i64>) -> bool {
    ||| (out == Some(runaway_text()) && readings == Seq::<i64>::empty() && exists|r: Seq<i64>|
        #[trigger] d10_runaway(r, tresh))
    ||| exists|units: Seq<i64>, tenth: i64, macron: i64|
        d10_explosion(units, tresh) && 1 <= tenth <= 10 && 1 <= macron <= 100 && out
            == #[trigger] brigandine_text(units, tenth, macron) && readings == seq![
            brigandine_inverse(units[0], tenth) as i64,
        ]
}

/// One entry of a command list's report.
pub open spec fn list_block(out: Seq<char>) -> Seq<char> {
    "===================================\n"@ + out + "\n"@
}

/// The report of a commented command.
pub open spec fn commented(comment: Seq<char>, out: Option<Seq<char>>) -> Option<Seq<char>> {
    match out {
        Some(o) => Some("##"@ + comment + "\n"@ + o),
        None => None,
    }
}

/// `out` is an answer that running `cmd` can give, and `readings` the reversed
/// d100 readings that its Brigandine rolls print on the way, in order: a report
/// for some outcome of its dice, or `None` where the command cannot complete.
pub open spec fn possible_output(cmd: Command, out: Option<Seq<char>>, readings: Seq<i64>) -> bool
    decreases cmd,
{
    match cmd {
        Command::Brigandine { explode_tresh } => brigandine_outcome(explode_tresh, out, readings),
        Command::CmdList(cmds) => list_possible(cmds@, out, readings),
        Command::CommentedCmd(comment, inner) => exists|o: Option<Seq<char>>|
            possible_output(*inner, o, readings) && out == #[trigger] commented(comment@, o),
        _ => readings == Seq::<i64>::empty() && match cmd {
            Command::Help => out == Some(HELP_TEXT@),
            Command::Roll(sides, n) => roll_outcome(sides, n, out),
            Command::Warhammer { score } => warhammer_outcome(score, out),
            Command::Pouet => out == Some("Pouet!"@),
            Command::Coupable => out == Some("Jovial."@),
            Command::Shadowrun(n, goal) => shadowrun_outcome(n, goal, out),
            Command::Degenesis(n, goal) => degenesis_outcome(n, goal, out),
            Command::Trudvang(n, tresh, bonus) => trudvang_outcome(n, tresh, bonus, out),
            Command::Say(s) => out == Some(s@),
            _ => false,
        },
    }
}

/// The answer of a command list whose earlier commands answered `before` and
/// whose last command answered `last`: `None` as soon as one of them has no answer.
pub open spec fn joined(before: Option<Seq<char>>, last: Option<Seq<char>>) -> Option<Seq<char>> {
    match (before, last) {
        (Some(b), Some(l)) => Some(b + list_block(l)),
        _ => None,
    }
}

/// The answer and the readings of a command list whose earlier commands gave
/// `before` and `before_readings`, and whose last command gave `last` and
/// `last_readings` (the last command runs only when the earlier ones answered).
pub open spec fn list_step(
    before: Option<Seq<char>>,
    last: Option<Seq<char>>,
    before_readings: Seq<i64>,
    last_readings: Seq<i64>,
) -> (Option<Seq<char>>, Seq<i64>) {
    (joined(before, last), if before is Some {
        before_readings + last_readings
    } else {
        before_readings
    })
}

/// `out` is an answer that running the commands of `cmds` in order can give,
/// with `readings` printed on the way; once one command has no answer, the
/// later ones are not run.
pub open spec fn list_possible(cmds: Seq<Command>, out: Option<Seq<char>>, readings: Seq<i64>) -> bool
    decreases cmds,
{
    if cmds.len() == 0 {
        out == Some(Seq::<char>::empty()) && readings == Seq::<i64>::empty()
    } else {
        exists|
            before: Option<Seq<char>>,
            last: Option<Seq<char>>,
            before_readings: Seq<i64>,
            last_readings: Seq<i64>,
        |
            list_possible(cmds.drop_last(), before, before_readings) && (before is Some
                ==> possible_output(cmds.last(), last, last_readings)) && (out, readings)
                == #[trigger] list_step(before, last, before_readings, last_readings)
    }
}

/// The commands that run without a deterministic failure: no die without
/// faces is rolled and no Trudvang roll asks for a negative number of dice.
pub open spec fn runnable(cmd: Command) -> bool
    decreases cmd,
{
    match cmd {
        Command::Roll(sides, n) => n > 0 ==> sides != 0,
        Command::Trudvang(n, _, _) => n >= 0,
        Command::CmdList(cmds) => forall|i: int| 0 <= i < cmds@.len() ==> runnable(#[trigger] cmds@[i]),
        Command::CommentedCmd(_, inner) => runnable(*inner),
        _ => true,
    }
}


/// Sorts the rolls in ascending order (`slice::sort`): the result is sorted
/// and holds the same rolls, each as many times.
#[verifier::external_body]
fn sort_rolls(rolls: &mut Vec<i64>)
    ensures
        is_sorted(final(rolls)@),
        final(rolls)@.to_multiset() == old(rolls)@.to_multiset(),
{
    rolls.sort()
}

/// Rolls `count` dice with `n_faces` faces, in the order rolled.
fn roll_dice(n_faces: i64, count: i64) -> (rolls: Vec<i64>)
    requires
        count > 0 ==> n_faces != 0,
    ensures
        rolls@.len() == range_len(count),
        all_faces(rolls@, n_faces),
{
    let mut rolls: Vec<i64> = Vec::new();
    let mut i: i64 = 0;
    while i < count
        invariant
            count > 0 ==> n_faces != 0,
            0 <= i,
            i < count ==> rolls@.len() == i,
            i >= count ==> rolls@.len() == range_len(count),
            count > 0 ==> i <= count,
            all_faces(rolls@, n_faces),
        decreases count - i,
    {
        let face = dice(n_faces);
        rolls.push(face);
        i = i + 1;
    }
    rolls
}

/// Rolls `count` dice with `n_faces` faces and sorts them.
fn roll_sorted(n_faces: i64, count: i64) -> (rolls: Vec<i64>)
    requires
        count > 0 ==> n_faces != 0,
    ensures
        rolls@.len() == range_len(count),
        all_faces(rolls@, n_faces),
        is_sorted(rolls@),
{
    let mut rolls = roll_dice(n_faces, count);
    let ghost before = rolls@;
    sort_rolls(&mut rolls);
    proof {
        broadcast use vstd::seq_lib::group_to_multiset_ensures;

        assert(rolls@.len() == rolls@.to_multiset().len());
        assert(before.len() == before.to_multiset().len());
        assert forall|i: int| 0 <= i < rolls@.len() implies is_face(#[trigger] rolls@[i], n_faces) by {
            assert(rolls@.contains(rolls@[i]));
            assert(rolls@.to_multiset().count(rolls@[i]) > 0);
            assert(before.contains(rolls@[i]));
        }
    }
    rolls
}

/// Runs `Roll(sides, n)`: `n` dice, each written after a space.
fn run_roll(sides: i64, n: i64) -> (out: String)
    requires
        n > 0 ==> sides != 0,
    ensures
        roll_outcome(sides, n, Some(out@)),
{
    let rolls = roll_dice(sides, n);
    let mut out = String::new();
    push_spaced(&mut out, &rolls);
    assert(out@ =~= spaced(rolls@));
    out
}

/// Runs a Warhammer test.
fn run_warhammer(score: i64) -> (out: String)
    ensures
        warhammer_outcome(score, Some(out@)),
{
    let d = dice(100);
    warhammer_report(d, score)
}

/// Runs a Shadowrun pool.
fn run_shadowrun(n: i64, goal: Option<i64>) -> (out: String)
    ensures
        shadowrun_outcome(n, goal, Some(out@)),
{
    let dies = roll_sorted(6, n);
    shadowrun_report(&dies, goal)
}

/// Runs a Degenesis pool.
fn run_degenesis(n: i64, goal: Option<i64>) -> (out: String)
    ensures
        degenesis_outcome(n, goal, Some(out@)),
{
    let pool: i64 = if n < 12 {
        n
    } else {
        12
    };
    let dies = roll_sorted(6, pool);
    degenesis_report(n, &dies, goal)
}


/// A d10 run of an exploding die with threshold `tresh`: one that stopped,
/// or one that ran away.
pub open spec fn d10_roll(rolls: Seq<i64>, tresh: i64) -> bool {
    d10_explosion(rolls, tresh) || d10_runaway(rolls, tresh)
}

/// A run that stopped is no runaway.
proof fn lemma_stopped_is_no_runaway(rolls: Seq<i64>, tresh: i64)
    requires
        d10_explosion(rolls, tresh),
    ensures
        !d10_runaway(rolls, tresh),
{
    if d10_runaway(rolls, tresh) {
        assert(rolls[rolls.len() - 1] >= tresh);
    }
}

/// Rolls an exploding d10 that explodes on `tresh` or more; also hands back
/// every face rolled. The outcome follows those faces: the run when it
/// stopped, the runaway message when it reached the depth limit still
/// exploding.
fn d10_explode(tresh: i64) -> (res: (Vec<i64>, Result<Vec<i64>, String>))
    ensures
        match res.1 {
            Ok(rolls) => rolls@ == res.0@ && d10_explosion(res.0@, tresh),
            Err(msg) => msg@ == runaway_text() && d10_runaway(res.0@, tresh),
        },
{
    let reaches = |x: i64| -> (b: bool)
        ensures
            b == (x >= tresh),
        { x >= tresh };
    let (faces, res) = crate::dice::explode_with_rolls(10, reaches, 0);
    proof {
        match &res {
            Ok(rolls) => {
                assert forall|i: int| 0 <= i < faces@.len() implies 1 <= #[trigger] faces@[i] <= 10 by {
                    crate::dice::lemma_faces_of_positive_die(faces@[i], 10);
                }
                assert forall|i: int| 0 <= i < faces@.len() - 1 implies #[trigger] faces@[i] >= tresh by {
                    assert(reaches.ensures((faces@[i],), true));
                }
                assert(reaches.ensures((faces@.last(),), false));
            },
            Err(_) => {
                assert forall|i: int| 0 <= i < faces@.len() implies 1 <= #[trigger] faces@[i] <= 10
                    && faces@[i] >= tresh by {
                    crate::dice::lemma_faces_of_positive_die(faces@[i], 10);
                    assert(reaches.ensures((faces@[i],), true));
                }
            },
        }
    }
    (faces, res)
}

/// The answer of a Trudvang roll whose dice gave `runs`, in rolling order:
/// the runaway message when one of them ran away, else the report.
pub open spec fn trudvang_answer(runs: Seq<Seq<i64>>, tresh: i64, bonus: i64) -> Option<Seq<char>> {
    if exists|k: int| 0 <= k < runs.len() && #[trigger] d10_runaway(runs[k], tresh) {
        Some(runaway_text())
    } else {
        trudvang_text(runs, bonus)
    }
}

/// Runs a Trudvang roll: `n` exploding d10s, then their report. Also hands
/// back the faces that each die rolled, which decide the answer.
fn run_trudvang(n: i64, tresh: i64, bonus: i64) -> (res: (Option<String>, Vec<Vec<i64>>))
    requires
        n >= 0,
    ensures
        res.1@.len() == n,
        forall|k: int| 0 <= k < n ==> d10_roll(#[trigger] roll_lists(res.1@)[k], tresh),
        opt_view(res.0) == trudvang_answer(roll_lists(res.1@), tresh, bonus),
{
    let mut chains: Vec<Vec<i64>> = Vec::new();
    let mut runaway: Option<String> = None;
    let mut i: i64 = 0;
    while i < n
        invariant
            0 <= i <= n,
            chains@.len() == i,
            forall|k: int| 0 <= k < i ==> d10_roll(#[trigger] roll_lists(chains@)[k], tresh),
            runaway is Some <==> exists|k: int|
                0 <= k < i && #[trigger] d10_runaway(roll_lists(chains@)[k], tresh),
            runaway matches Some(msg) ==> msg@ == runaway_text(),
        decreases n - i,
    {
        let ghost before = roll_lists(chains@);
        let (faces, outcome) = d10_explode(tresh);
        match outcome {
            Ok(_) => {
                proof {
                    lemma_stopped_is_no_runaway(faces@, tresh);
                }
            },
            Err(msg) => {
                runaway = Some(msg);
            },
        }
        let ghost added = faces@;
        chains.push(faces);
        proof {
            assert(roll_lists(chains@) =~= before.push(added));
            assert forall|k: int| 0 <= k < i + 1 implies d10_roll(
                #[trigger] roll_lists(chains@)[k],
                tresh,
            ) by {
                if k < i {
                    assert(roll_lists(chains@)[k] == before[k]);
                }
            }
            if runaway is Some {
                if d10_runaway(added, tresh) {
                    assert(d10_runaway(roll_lists(chains@)[i as int], tresh));
                } else {
                    let k = choose|k: int| 0 <= k < i && #[trigger] d10_runaway(before[k], tresh);
                    assert(d10_runaway(roll_lists(chains@)[k], tresh));
                }
            }
            if exists|k: int| 0 <= k < i + 1 && #[trigger] d10_runaway(roll_lists(chains@)[k], tresh) {
                let k = choose|k: int| 0 <= k < i + 1 && #[trigger] d10_runaway(roll_lists(chains@)[k], tresh);
                if k < i {
                    assert(d10_runaway(before[k], tresh));
                }
            }
        }
        i = i + 1;
    }
    let ghost runs = roll_lists(chains@);
    match runaway {
        Some(msg) => (Some(msg), chains),
        None => {
            assert forall|k: int| 0 <= k < runs.len() implies #[trigger] d10_explosion(runs[k], tresh) by {
                assert(d10_roll(runs[k], tresh));
            }
            assert(d10_runs(runs)) by {
                assert forall|k: int| 0 <= k < runs.len() implies (#[trigger] runs[k]).len() <= 1001 && forall|
                    j: int,
                | 0 <= j < runs[k].len() ==> 1 <= #[trigger] runs[k][j] <= 10 by {
                    assert(d10_explosion(runs[k], tresh));
                }
            }
            let out = trudvang_report(&chains, bonus);
            (out, chains)
        },
    }
}

/// What a Trudvang roll answers, once its dice have given `runs`, is one of
/// the answers that the roll can give.
proof fn lemma_trudvang_answer_is_outcome(n: i64, tresh: i64, bonus: i64, runs: Seq<Seq<i64>>)
    requires
        n >= 0,
        runs.len() == n,
        forall|k: int| 0 <= k < n ==> d10_roll(#[trigger] runs[k], tresh),
    ensures
        trudvang_outcome(n, tresh, bonus, trudvang_answer(runs, tresh, bonus)),
{
    if exists|k: int| 0 <= k < runs.len() && #[trigger] d10_runaway(runs[k], tresh) {
        let k = choose|k: int| 0 <= k < runs.len() && #[trigger] d10_runaway(runs[k], tresh);
        assert(d10_runaway(runs[k], tresh));
    } else {
        assert forall|k: int| 0 <= k < runs.len() implies #[trigger] d10_explosion(runs[k], tresh) by {
            assert(d10_roll(runs[k], tresh));
        }
        assert(runs.len() == range_len(n));
    }
}

/// What a Brigandine roll answers once its exploding unit die gave `units`:
/// the runaway message, printing nothing, when the die ran away; else the
/// report for some tens die and d100, printing its reversed reading.
pub open spec fn brigandine_answer(units: Seq<i64>, tresh: i64, out: Option<Seq<char>>, readings: Seq<i64>) -> bool {
    ||| d10_runaway(units, tresh) && out == Some(runaway_text()) && readings == Seq::<i64>::empty()
    ||| d10_explosion(units, tresh) && exists|tenth: i64, macron: i64|
        1 <= tenth <= 10 && 1 <= macron <= 100 && out == #[trigger] brigandine_text(units, tenth, macron)
            && readings == seq![brigandine_inverse(units[0], tenth) as i64]
}

/// Runs a Brigandine roll: an exploding d10 for the units, a d10 for the tens,
/// and, when the unit die exploded, a d100 for the Macron Explosion. Also
/// returns the reversed reading, which the roll prints, and the faces of the
/// unit die, which decide the answer.
fn run_brigandine(tresh: i64) -> (res: (Option<String>, Vec<i64>, Vec<i64>))
    ensures
        brigandine_answer(res.2@, tresh, opt_view(res.0), res.1@),
{
    let (faces, outcome) = d10_explode(tresh);
    match outcome {
        Err(msg) => {
            let readings: Vec<i64> = Vec::new();
            assert(readings@ =~= Seq::<i64>::empty());
            (Some(msg), readings, faces)
        },
        Ok(units) => {
            let tenth = dice(10);
            let inverse: i64 = (units[0] % 10) * 10 + tenth % 10;
            let mut readings: Vec<i64> = Vec::new();
            readings.push(inverse);
            let macron: i64 = if units.len() == 1 {
                100
            } else {
                dice(100)
            };
            let out = brigandine_report(&units, tenth, macron);
            assert(opt_view(out) == brigandine_text(units@, tenth, macron));
            assert(readings@ =~= seq![brigandine_inverse(units@[0], tenth) as i64]);
            (out, readings, faces)
        },
    }
}

/// What a Brigandine roll answers, once its unit die has given `units`, is
/// one of the answers that the roll can give.
proof fn lemma_brigandine_answer_is_outcome(units: Seq<i64>, tresh: i64, out: Option<Seq<char>>, readings: Seq<i64>)
    requires
        brigandine_answer(units, tresh, out, readings),
    ensures
        brigandine_outcome(tresh, out, readings),
{
    if d10_runaway(units, tresh) && out == Some(runaway_text()) && readings == Seq::<i64>::empty() {
    } else {
        let (tenth, macron) = choose|tenth: i64, macron: i64|
            1 <= tenth <= 10 && 1 <= macron <= 100 && out == #[trigger] brigandine_text(units, tenth, macron)
                && readings == seq![brigandine_inverse(units[0], tenth) as i64];
        assert(out == brigandine_text(units, tenth, macron));
    }
}

/// Appends one entry of a command list's report.
fn push_list_block(acc: &mut String, out: &String)
    ensures
        final(acc)@ == old(acc)@ + list_block(out@),
{
    acc.append("===================================\n");
    acc.append(out.as_str());
    acc.append("\n");
    assert(final(acc)@ =~= old(acc)@ + list_block(out@));
}

proof fn lemma_failed_prefix(cmds: Seq<Command>, k: int, readings: Seq<i64>)
    requires
        0 <= k <= cmds.len(),
        list_possible(cmds.take(k), None, readings),
    ensures
        list_possible(cmds, None, readings),
    decreases cmds.len() - k,
{
    if k == cmds.len() {
        assert(cmds.take(k) =~= cmds);
    } else {
        let next = cmds.take(k + 1);
        assert(next.drop_last() =~= cmds.take(k));
        assert(list_possible(next.drop_last(), None, readings));
        assert(list_step(None, None, readings, Seq::<i64>::empty()) == (None::<Seq<char>>, readings));
        assert(list_possible(next, None, readings));
        lemma_failed_prefix(cmds, k + 1, readings);
    }
}

impl Command {
    /// Whether the command runs without a deterministic failure (see [`runnable`]).
    pub fn is_runnable(&self) -> (b: bool)
        ensures
            b == runnable(*self),
        decreases self,
    {
        match self {
            Command::Roll(sides, n) => *n <= 0 || *sides != 0,
            Command::Trudvang(n, _, _) => *n >= 0,
            Command::CmdList(commands) => {
                let mut i: usize = 0;
                while i < commands.len()
                    invariant
                        *self == Command::CmdList(*commands),
                        i <= commands.len(),
                        forall|k: int| 0 <= k < i ==> runnable(#[trigger] commands@[k]),
                    decreases commands.len() - i,
                {
                    proof {
                        assert(decreases_to!(*self => (*self)->CmdList_0));
                        assert(decreases_to!(*commands => commands@));
                        assert(decreases_to!(commands@ => commands@[i as int]));
                    }
                    if !commands[i].is_runnable() {
                        return false;
                    }
                    i = i + 1;
                }
                true
            },
            Command::CommentedCmd(_, inner) => inner.is_runnable(),
            _ => true,
        }
    }

    /// Runs the command: its dice are rolled and its report written. `None`
    /// where the command cannot complete (a Brigandine hit outside the
    /// location table, a Trudvang total that does not fit in an `i64`). Also
    /// returns the reversed readings that its Brigandine rolls print.
    fn run(&self) -> (res: (Option<String>, Vec<i64>))
        requires
            runnable(*self),
        ensures
            possible_output(*self, opt_view(res.0), res.1@),
        decreases self,
    {
        let none: Vec<i64> = Vec::new();
        assert(none@ =~= Seq::<i64>::empty());
        match self {
            Command::Help => {
                let out = String::from_str(HELP_TEXT);
                (Some(out), none)
            },
            Command::Roll(sides, n) => (Some(run_roll(*sides, *n)), none),
            Command::Pouet => (Some(String::from_str("Pouet!")), none),
            Command::Warhammer { score } => (Some(run_warhammer(*score)), none),
            Command::Coupable => (Some(String::from_str("Jovial.")), none),
            Command::Shadowrun(n, goal) => (Some(run_shadowrun(*n, *goal)), none),
            Command::Degenesis(n, goal) => (Some(run_degenesis(*n, *goal)), none),
            Command::Trudvang(n, tresh, bonus) => {
                let (out, chains) = run_trudvang(*n, *tresh, *bonus);
                proof {
                    lemma_trudvang_answer_is_outcome(*n, *tresh, *bonus, roll_lists(chains@));
                }
                (out, none)
            },
            Command::Say(s) => (Some(s.clone()), none),
            Command::Brigandine { explode_tresh } => {
                let (out, readings, units) = run_brigandine(*explode_tresh);
                proof {
                    lemma_brigandine_answer_is_outcome(units@, *explode_tresh, opt_view(out), readings@);
                }
                (out, readings)
            },
            Command::CmdList(commands) => {
                let ghost cmds = commands@;
                let mut acc = String::new();
                let mut readings: Vec<i64> = Vec::new();
                let mut i: usize = 0;
                assert(cmds.take(0) =~= Seq::<Command>::empty());
                assert(readings@ =~= Seq::<i64>::empty());
                while i < commands.len()
                    invariant
                        cmds == commands@,
                        *self == Command::CmdList(*commands),
                        forall|k: int| 0 <= k < cmds.len() ==> runnable(#[trigger] cmds[k]),
                        i <= commands.len(),
                        list_possible(cmds.take(i as int), Some(acc@), readings@),
                    decreases commands.len() - i,
                {
                    let ghost next = cmds.take(i + 1);
                    assert(next.drop_last() =~= cmds.take(i as int));
                    assert(next.last() == cmds[i as int]);
                    assert(runnable(cmds[i as int]));
                    proof {
                        assert(decreases_to!(*self => (*self)->CmdList_0));
                        assert(decreases_to!(*commands => commands@));
                        assert(decreases_to!(commands@ => commands@[i as int]));
                        assert(decreases_to!(*self => commands@[i as int]));
                    }
                    let (sub, mut sub_readings) = commands[i].run();
                    let ghost before = acc@;
                    let ghost before_readings = readings@;
                    let ghost last_readings = sub_readings@;
                    readings.append(&mut sub_readings);
                    assert(readings@ =~= before_readings + last_readings);
                    match sub {
                        None => {
                            proof {
                                assert(list_possible(next.drop_last(), Some(before), before_readings));
                                assert(possible_output(next.last(), None, last_readings));
                                assert(list_step(Some(before), None, before_readings, last_readings)
                                    == (None::<Seq<char>>, readings@));
                                assert(list_possible(next, None, readings@));
                                lemma_failed_prefix(cmds, i + 1, readings@);
                            }
                            return (None, readings);
                        },
                        Some(o) => {
                            push_list_block(&mut acc, &o);
                            assert(possible_output(next.last(), Some(o@), last_readings));
                            assert(list_possible(next.drop_last(), Some(before), before_readings));
                            assert(acc@ == before + list_block(o@));
                            assert(list_step(Some(before), Some(o@), before_readings, last_readings)
                                == (Some(acc@), readings@));
                            assert(list_possible(next, Some(acc@), readings@));
                        },
                    }
                    i = i + 1;
                }
                assert(cmds.take(i as int) =~= cmds);
                (Some(acc), readings)
            },
            Command::CommentedCmd(comment, inner) => {
                let (sub, readings) = inner.run();
                match sub {
                    None => {
                        assert(commented(comment@, None) == None::<Seq<char>>);
                        (None, readings)
                    },
                    Some(o) => {
                        let mut out = String::from_str("##");
                        out.append(comment.as_str());
                        out.append("\n");
                        out.append(o.as_str());
                        assert(out@ =~= commented(comment@, Some(o@)).unwrap());
                        (Some(out), readings)
                    },
                }
            },
        }
    }

    /// Runs the command and returns its report: what was rolled and what it
    /// means. `None` where the command cannot complete: a Brigandine hit
    /// whose reversed reading is outside the hit location table, or a
    /// Trudvang total that does not fit in an `i64`.
    pub fn execute(self) -> (out: Option<String>)
        requires
            runnable(self),
        ensures
            exists|readings: Seq<i64>| #[trigger] possible_output(self, opt_view(out), readings),
    {
        let (out, readings) = self.run();
        assert(possible_output(self, opt_view(out), readings@));
        out
    }

    /// Runs the command like [`Command::execute`], and also returns the
    /// reversed d100 readings of its Brigandine rolls, in order, which the bot
    /// prints as `inverse: <reading>`.
    pub fn execute_logged(self) -> (res: (Option<String>, Vec<i64>))
        requires
            runnable(self),
        ensures
            possible_output(self, opt_view(res.0), res.1@),
    {
        self.run()
    }
}


/// A Trudvang or Brigandine die whose threshold is above 10 never explodes:
/// every run is a single d10 and no roll runs away ("?trv => 1d10 qui
/// n'explose pas").
pub proof fn law_high_threshold_never_explodes(rolls: Seq<i64>, tresh: i64)
    requires
        tresh > 10,
    ensures
        d10_explosion(rolls, tresh) ==> rolls.len() == 1,
        !d10_runaway(rolls, tresh),
{
    if d10_explosion(rolls, tresh) && rolls.len() > 1 {
        assert(rolls[0] >= tresh);
        assert(1 <= rolls[0] <= 10);
    }
    if d10_runaway(rolls, tresh) {
        assert(rolls[0] >= tresh && rolls[0] <= 10);
    }
}

/// With a threshold of 1 or less every d10 explodes, so a Trudvang roll of
/// at least one die always answers the runaway message ("?trv JO 0 => la
/// mort du respect").
pub proof fn law_trudvang_low_threshold_runs_away(
    n: i64,
    tresh: i64,
    bonus: i64,
    out: Option<Seq<char>>,
    readings: Seq<i64>,
)
    requires
        n > 0,
        tresh <= 1,
        possible_output(Command::Trudvang(n, tresh, bonus), out, readings),
    ensures
        out == Some(runaway_text()),
{
    if !(out == Some(runaway_text())) {
        let chains = choose|chains: Seq<Seq<i64>>|
            chains.len() == range_len(n) && (forall|i: int|
                0 <= i < chains.len() ==> #[trigger] d10_explosion(chains[i], tresh)) && out
                == #[trigger] trudvang_text(chains, bonus);
        assert(d10_explosion(chains[0], tresh));
        let first = chains[0];
        assert(1 <= first[first.len() - 1] <= 10);
    }
}

/// With a threshold of 1 or less the Brigandine unit die always explodes, so
/// the roll always answers the runaway message ("?br 1 => non").
pub proof fn law_brigandine_low_threshold_runs_away(tresh: i64, out: Option<Seq<char>>, readings: Seq<i64>)
    requires
        tresh <= 1,
        possible_output(Command::Brigandine { explode_tresh: tresh }, out, readings),
    ensures
        out == Some(runaway_text()),
{
    if !(out == Some(runaway_text())) {
        let (units, tenth, macron) = choose|units: Seq<i64>, tenth: i64, macron: i64|
            d10_explosion(units, tresh) && 1 <= tenth <= 10 && 1 <= macron <= 100 && out
                == #[trigger] brigandine_text(units, tenth, macron);
        assert(1 <= units[units.len() - 1] <= 10);
    }
}

/// With a threshold above 10 a Trudvang roll always gives its report, with
/// one d10 per die.
pub proof fn law_trudvang_high_threshold_single_dice(
    n: i64,
    tresh: i64,
    bonus: i64,
    out: Option<Seq<char>>,
    readings: Seq<i64>,
)
    requires
        tresh > 10,
        possible_output(Command::Trudvang(n, tresh, bonus), out, readings),
    ensures
        exists|chains: Seq<Seq<i64>>|
            chains.len() == range_len(n) && (forall|i: int|
                0 <= i < chains.len() ==> (#[trigger] chains[i]).len() == 1 && 1 <= chains[i][0]
                    <= 10) && out == #[trigger] trudvang_text(chains, bonus),
{
    if out == Some(runaway_text()) && exists|r: Seq<i64>| #[trigger] d10_runaway(r, tresh) {
        let r = choose|r: Seq<i64>| #[trigger] d10_runaway(r, tresh);
        law_high_threshold_never_explodes(r, tresh);
    }
    let chains = choose|chains: Seq<Seq<i64>>|
        chains.len() == range_len(n) && (forall|i: int|
            0 <= i < chains.len() ==> #[trigger] d10_explosion(chains[i], tresh)) && out
            == #[trigger] trudvang_text(chains, bonus);
    assert forall|i: int| 0 <= i < chains.len() implies (#[trigger] chains[i]).len() == 1 && 1
        <= chains[i][0] <= 10 by {
        assert(d10_explosion(chains[i], tresh));
        law_high_threshold_never_explodes(chains[i], tresh);
    }
}


/// A roll of `n` dice with a positive number of faces answers `n` numbers (none
/// when `n` is not positive), each between 1 and the number of faces ("?4d100").
pub proof fn law_roll_faces_in_range(sides: i64, n: i64, out: Option<Seq<char>>, readings: Seq<i64>)
    requires
        sides > 0,
        possible_output(Command::Roll(sides, n), out, readings),
    ensures
        exists|rolls: Seq<i64>|
            rolls.len() == range_len(n) && (forall|i: int|
                0 <= i < rolls.len() ==> 1 <= #[trigger] rolls[i] <= sides) && out == Some(
                #[trigger] spaced(rolls),
            ),
{
    let rolls = choose|rolls: Seq<i64>|
        rolls.len() == range_len(n) && all_faces(rolls, sides) && out == Some(#[trigger] spaced(rolls));
    assert forall|i: int| 0 <= i < rolls.len() implies 1 <= #[trigger] rolls[i] <= sides by {
        crate::dice::lemma_faces_of_positive_die(rolls[i], sides);
    }
}

/// A Degenesis score above 12 rolls 12 dice and counts the rest as automatic
/// successes ("?dg 17 => 12 dés plus 5 réussites automatiques").
pub proof fn law_degenesis_caps_pool(n: i64, goal: Option<i64>, out: Option<Seq<char>>, readings: Seq<i64>)
    requires
        n >= 12,
        possible_output(Command::Degenesis(n, goal), out, readings),
    ensures
        exists|dies: Seq<i64>|
            dies.len() == 12 && is_sorted(dies) && (forall|i: int|
                0 <= i < dies.len() ==> 1 <= #[trigger] dies[i] <= 6) && out == Some(
                #[trigger] degenesis_text(n, dies, goal),
            ),
{
    let dies = choose|dies: Seq<i64>|
        dies.len() == degenesis_pool(n) && all_faces(dies, 6) && is_sorted(dies) && out == Some(
            #[trigger] degenesis_text(n, dies, goal),
        );
    assert forall|i: int| 0 <= i < dies.len() implies 1 <= #[trigger] dies[i] <= 6 by {
        crate::dice::lemma_faces_of_positive_die(dies[i], 6);
    }
}


/// The report of a command list: one block per command answer, in order.
pub open spec fn blocks(outs: Seq<Seq<char>>) -> Seq<char>
    decreases outs.len(),
{
    if outs.len() == 0 {
        Seq::empty()
    } else {
        blocks(outs.drop_last()) + list_block(outs.last())
    }
}

/// The readings of several runs, one after the other.
pub open spec fn all_readings(runs: Seq<Seq<i64>>) -> Seq<i64>
    decreases runs.len(),
{
    if runs.len() == 0 {
        Seq::empty()
    } else {
        all_readings(runs.drop_last()) + runs.last()
    }
}

/// A command list answers the concatenation of one block per command, each
/// being the separator line, an answer that command can give and a new line,
/// in list order, with the readings of its commands one after the other (an
/// empty list answers the empty text).
pub proof fn law_list_joins_blocks(
    cmds: Vec<Command>,
    outs: Seq<Seq<char>>,
    runs: Seq<Seq<i64>>,
)
    requires
        outs.len() == cmds@.len(),
        runs.len() == cmds@.len(),
        forall|i: int|
            0 <= i < cmds@.len() ==> possible_output(#[trigger] cmds@[i], Some(outs[i]), runs[i]),
    ensures
        possible_output(Command::CmdList(cmds), Some(blocks(outs)), all_readings(runs)),
{
    lemma_list_joins_blocks(cmds@, outs, runs);
}

proof fn lemma_list_joins_blocks(cmds: Seq<Command>, outs: Seq<Seq<char>>, runs: Seq<Seq<i64>>)
    requires
        outs.len() == cmds.len(),
        runs.len() == cmds.len(),
        forall|i: int| 0 <= i < cmds.len() ==> possible_output(#[trigger] cmds[i], Some(outs[i]), runs[i]),
    ensures
        list_possible(cmds, Some(blocks(outs)), all_readings(runs)),
    decreases cmds.len(),
{
    if cmds.len() > 0 {
        let k = cmds.len() - 1;
        assert forall|i: int| 0 <= i < k implies possible_output(
            #[trigger] cmds.drop_last()[i],
            Some(outs.drop_last()[i]),
            runs.drop_last()[i],
        ) by {
            assert(cmds.drop_last()[i] == cmds[i]);
        }
        lemma_list_joins_blocks(cmds.drop_last(), outs.drop_last(), runs.drop_last());
        assert(possible_output(cmds[k], Some(outs[k]), runs[k]));
        assert(list_step(
            Some(blocks(outs.drop_last())),
            Some(outs.last()),
            all_readings(runs.drop_last()),
            runs.last(),
        ) == (Some(blocks(outs)), all_readings(runs)));
    }
}


/// A Trudvang roll answers the runaway message exactly when one of the dice
/// that it rolled ran away; when every die stopped, it answers the report of
/// their runs and never the runaway message.
pub proof fn law_trudvang_runaway_iff_a_die_ran_away(runs: Seq<Seq<i64>>, tresh: i64, bonus: i64)
    requires
        forall|k: int| 0 <= k < runs.len() ==> d10_roll(#[trigger] runs[k], tresh),
    ensures
        (trudvang_answer(runs, tresh, bonus) == Some(runaway_text())) <==> exists|k: int|
            0 <= k < runs.len() && #[trigger] d10_runaway(runs[k], tresh),
        (forall|k: int| 0 <= k < runs.len() ==> #[trigger] d10_explosion(runs[k], tresh))
            ==> trudvang_answer(runs, tresh, bonus) == trudvang_text(runs, bonus),
{
    reveal_strlit("nan mais t'abuse là avec ton dé explosif");
    reveal_strlit("[");
    reveal_strlit("\n");
    if forall|k: int| 0 <= k < runs.len() ==> #[trigger] d10_explosion(runs[k], tresh) {
        assert forall|k: int| 0 <= k < runs.len() implies !#[trigger] d10_runaway(runs[k], tresh) by {
            assert(d10_explosion(runs[k], tresh));
            lemma_stopped_is_no_runaway(runs[k], tresh);
        }
    }
    if !exists|k: int| 0 <= k < runs.len() && #[trigger] d10_runaway(runs[k], tresh) {
        match trudvang_text(runs, bonus) {
            Some(t) => {
                let total = total_of(runs);
                assert(t == bracketed_runs(runs) + "\n"@ + "Total: "@ + int_text(total + bonus));
                if runs.len() > 0 {
                    assert(bracketed_runs(runs) == "["@ + spaced(runs.last()) + "] "@ + bracketed_runs(
                        runs.drop_last(),
                    ));
                    assert(t[0] == '[');
                } else {
                    assert(bracketed_runs(runs) =~= Seq::<char>::empty());
                    assert(t[0] == '\n');
                }
                assert(runaway_text()[0] == 'n');
            },
            None => {},
        }
    }
}

/// A Brigandine roll answers the runaway message exactly when its unit die
/// ran away; when the unit die stopped, it answers a report (or nothing),
/// never the runaway message.
pub proof fn law_brigandine_runaway_iff_unit_die_ran_away(
    units: Seq<i64>,
    tresh: i64,
    out: Option<Seq<char>>,
    readings: Seq<i64>,
)
    requires
        brigandine_answer(units, tresh, out, readings),
    ensures
        (out == Some(runaway_text())) <==> d10_runaway(units, tresh),
        d10_explosion(units, tresh) ==> readings.len() == 1,
{
    reveal_strlit("nan mais t'abuse là avec ton dé explosif");
    reveal_strlit("test: ");
    if d10_explosion(units, tresh) {
        lemma_stopped_is_no_runaway(units, tresh);
        let (tenth, macron) = choose|tenth: i64, macron: i64|
            1 <= tenth <= 10 && 1 <= macron <= 100 && out == #[trigger] brigandine_text(units, tenth, macron)
                && readings == seq![brigandine_inverse(units[0], tenth) as i64];
        match brigandine_text(units, tenth, macron) {
            Some(t) => {
                assert(t[0] == 't');
                assert(runaway_text()[0] == 'n');
            },
            None => {},
        }
    }
}

/// The dice showing `k` or more.
pub open spec fn shows_at_least(k: i64) -> spec_fn(i64) -> bool {
    |x: i64| x >= k
}

/// The dice showing exactly `k`.
pub open spec fn shows(k: i64) -> spec_fn(i64) -> bool {
    |x: i64| x == k
}

proof fn lemma_count_at_least_filter(rolls: Seq<i64>, k: i64)
    ensures
        count_at_least(rolls, k) == rolls.filter(shows_at_least(k)).len(),
    decreases rolls.len(),
{
    if rolls.len() > 0 {
        lemma_count_at_least_filter(rolls.drop_last(), k);
        let p = shows_at_least(k);
        reveal(Seq::filter);
        assert(rolls.filter(p) == if p(rolls.last()) {
            rolls.drop_last().filter(p).push(rolls.last())
        } else {
            rolls.drop_last().filter(p)
        });
    }
}

proof fn lemma_count_equal_filter(rolls: Seq<i64>, k: i64)
    ensures
        count_equal(rolls, k) == rolls.filter(shows(k)).len(),
    decreases rolls.len(),
{
    if rolls.len() > 0 {
        lemma_count_equal_filter(rolls.drop_last(), k);
        let p = shows(k);
        reveal(Seq::filter);
        assert(rolls.filter(p) == if p(rolls.last()) {
            rolls.drop_last().filter(p).push(rolls.last())
        } else {
            rolls.drop_last().filter(p)
        });
    }
}

proof fn lemma_count_equal_absent(rolls: Seq<i64>, k: i64)
    requires
        forall|i: int| 0 <= i < rolls.len() ==> rolls[i] != k,
    ensures
        count_equal(rolls, k) == 0,
    decreases rolls.len(),
{
    if rolls.len() > 0 {
        assert(rolls.last() == rolls[rolls.len() - 1]);
        lemma_count_equal_absent(rolls.drop_last(), k);
    }
}

/// A Shadowrun report lists the dice, then counts as hits exactly the dice
/// showing 5 or more; it flags a complication when more dice show 1 than
/// there are hits; against a goal it is a success when the hits reach it, a
/// critical failure when it is missed with more ones than hits, a failure
/// otherwise.
pub proof fn law_shadowrun_report(dies: Seq<i64>, goal: Option<i64>)
    ensures
        ({
            let hits = dies.filter(shows_at_least(5)).len() as int;
            let ones = dies.filter(shows(1)).len() as int;
            shadowrun_text(dies, goal) == "["@ + spaced(dies) + "]\n"@ + (if ones > hits {
                "Complication - "@
            } else {
                Seq::empty()
            }) + match goal {
                Some(g) => if hits >= g {
                    "Réussite ("@ + int_text(hits) + "/"@ + int_text(g as int) + ")"@
                } else if ones > hits {
                    "Échec critique! ("@ + int_text(hits) + "/"@ + int_text(g as int) + ")"@
                } else {
                    "Échec ("@ + int_text(hits) + "/"@ + int_text(g as int) + ")"@
                },
                None => if ones > hits {
                    int_text(hits) + " réussites (Risque d'échec critique)"@
                } else {
                    int_text(hits) + " réussites"@
                },
            }
        }),
{
    lemma_count_at_least_filter(dies, 5);
    lemma_count_equal_filter(dies, 1);
}

/// A Degenesis report lists the dice; its successes are the dice showing 4 or
/// more plus one automatic success per point of score beyond the dice rolled;
/// it names the automatic successes and the triggers (dice showing 6) when
/// there are any; it warns of a botch only when strictly more dice show 1 than
/// there are successes; against a goal it is a success when the successes
/// reach it.
pub proof fn law_degenesis_report(n: i64, dies: Seq<i64>, goal: Option<i64>)
    ensures
        ({
            let automatic = n - dies.len();
            let successes = dies.filter(shows_at_least(4)).len() + automatic;
            let triggers = dies.filter(shows(6)).len() as int;
            let ones = dies.filter(shows(1)).len() as int;
            degenesis_text(n, dies, goal) == "["@ + spaced(dies) + "]\n"@ + int_text(successes)
                + " réussites "@ + (if automatic != 0 {
                "("@ + int_text(automatic) + " automatiques) "@
            } else {
                Seq::empty()
            }) + (if triggers != 0 {
                "dont "@ + int_text(triggers) + " triggers"@
            } else {
                Seq::empty()
            }) + "\n"@ + match goal {
                Some(g) => if successes >= g {
                    "Réussite ("@ + int_text(successes) + " sur "@ + int_text(g as int) + ")"@
                } else if ones > successes {
                    "Échec critique!"@
                } else {
                    "Échec"@
                },
                None => if ones > successes {
                    "Possibilité d'échec critique"@
                } else {
                    Seq::empty()
                },
            }
        }),
{
    lemma_count_at_least_filter(dies, 4);
    lemma_count_equal_filter(dies, 6);
    lemma_count_equal_filter(dies, 1);
}

/// A Degenesis pool in which no die shows 1 never warns of a botch: with no
/// goal the analysis is empty, with a goal it is a success when the
/// successes reach the goal and a plain failure otherwise.
pub proof fn law_degenesis_no_botch_without_ones(n: i64, dies: Seq<i64>, goal: Option<i64>)
    requires
        n >= dies.len(),
        forall|i: int| 0 <= i < dies.len() ==> dies[i] != 1,
    ensures
        ({
            let successes = count_at_least(dies, 4) + (n - dies.len());
            degenesis_analysis(successes, count_equal(dies, 1) as int, goal) == match goal {
                Some(g) => if successes >= g {
                    "Réussite ("@ + int_text(successes) + " sur "@ + int_text(g as int) + ")"@
                } else {
                    "Échec"@
                },
                None => Seq::<char>::empty(),
            }
        }),
{
    lemma_count_equal_absent(dies, 1);
}

} // verus!
