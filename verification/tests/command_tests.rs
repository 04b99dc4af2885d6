use dice_bot::commands::{
    brigandine_report, degenesis_report, hit_location, shadowrun_report, trudvang_report,
    warhammer_report, Command, HELP_TEXT,
};

const RUNAWAY: &str = "nan mais t'abuse là avec ton dé explosif";

fn numbers(line: &str) -> Vec<i64> {
    line.split_whitespace().map(|w| w.parse().unwrap()).collect()
}

#[test]
fn warhammer_reports() {
    assert_eq!(warhammer_report(23, 64), "23: Réussite de 4 degrés");
    assert_eq!(warhammer_report(80, 64), "80: Échec de 2 degrés");
    assert_eq!(warhammer_report(55, 60), "55: Réussite critique de 1 degrés");
    assert_eq!(warhammer_report(88, 30), "88: Échec critique de 5 degrés");
    assert_eq!(warhammer_report(64, 64), "64: Réussite de 0 degrés");
}

#[test]
fn warhammer_degrees_round_toward_zero() {
    assert_eq!(warhammer_report(5, -15), "5: Échec de 1 degrés");
    assert_eq!(warhammer_report(100, 100), "100: Réussite de 0 degrés");
}

#[test]
fn shadowrun_reports() {
    assert_eq!(shadowrun_report(&vec![1, 1, 2, 5, 6], Some(3)), "[ 1 1 2 5 6]\nÉchec (2/3)");
    assert_eq!(
        shadowrun_report(&vec![1, 1, 1, 5], Some(1)),
        "[ 1 1 1 5]\nComplication - Réussite (1/1)"
    );
    assert_eq!(
        shadowrun_report(&vec![1, 1, 1, 5], Some(2)),
        "[ 1 1 1 5]\nComplication - Échec critique! (1/2)"
    );
    assert_eq!(
        shadowrun_report(&vec![1, 1, 3], None),
        "[ 1 1 3]\nComplication - 0 réussites (Risque d'échec critique)"
    );
    assert_eq!(shadowrun_report(&vec![2, 5, 6], None), "[ 2 5 6]\n2 réussites");
    assert_eq!(shadowrun_report(&vec![], None), "[]\n0 réussites");
}

#[test]
fn degenesis_reports() {
    assert_eq!(
        degenesis_report(17, &vec![1, 1, 2, 2, 3, 3, 4, 4, 5, 6, 6, 6], None),
        "[ 1 1 2 2 3 3 4 4 5 6 6 6]\n11 réussites (5 automatiques) dont 3 triggers\n"
    );
    assert_eq!(degenesis_report(3, &vec![1, 1, 2], Some(2)), "[ 1 1 2]\n0 réussites \nÉchec critique!");
    assert_eq!(degenesis_report(3, &vec![2, 3, 4], Some(2)), "[ 2 3 4]\n1 réussites \nÉchec");
    assert_eq!(
        degenesis_report(2, &vec![4, 6], Some(2)),
        "[ 4 6]\n2 réussites dont 1 triggers\nRéussite (2 sur 2)"
    );
    assert_eq!(degenesis_report(2, &vec![1, 3], None), "[ 1 3]\n0 réussites \nPossibilité d'échec critique");
    assert_eq!(degenesis_report(-3, &vec![], None), "[]\n-3 réussites (-3 automatiques) \nPossibilité d'échec critique");
}

#[test]
fn trudvang_reports_latest_run_first() {
    assert_eq!(
        trudvang_report(&vec![vec![10, 3], vec![4]], 2).unwrap(),
        "[ 4] [ 10 3] \nTotal: 19"
    );
    assert_eq!(trudvang_report(&vec![vec![7]], -2).unwrap(), "[ 7] \nTotal: 5");
    assert_eq!(trudvang_report(&vec![], 0).unwrap(), "\nTotal: 0");
}

#[test]
fn trudvang_total_overflow_has_no_report() {
    assert!(trudvang_report(&vec![vec![5]], i64::MAX).is_none());
    assert!(trudvang_report(&vec![vec![5]], i64::MAX - 5).is_some());
}

#[test]
fn brigandine_reports() {
    assert_eq!(
        brigandine_report(&vec![7], 3, 50).unwrap(),
        "test: 37 dégâts: 7  \nlocalisation: Abdomen"
    );
    assert_eq!(
        brigandine_report(&vec![10, 10, 4], 5, 1).unwrap(),
        "test: 50 dégâts: 24  (explosion: 10+10+4) Macron Explosion!\nlocalisation: Tête"
    );
    assert_eq!(
        brigandine_report(&vec![10, 2], 9, 42).unwrap(),
        "test: 90 dégâts: 12  (explosion: 10+2)\nlocalisation: Tête"
    );
}

#[test]
fn brigandine_double_ten_has_no_location() {
    assert!(brigandine_report(&vec![10], 10, 50).is_none());
}

#[test]
fn hit_location_table() {
    assert_eq!(hit_location(0), None);
    assert_eq!(hit_location(1), Some("Tête"));
    assert_eq!(hit_location(10), Some("Main gauche"));
    assert_eq!(hit_location(24), Some("Bras gauche"));
    assert_eq!(hit_location(25), Some("Main droite"));
    assert_eq!(hit_location(44), Some("Bras droit"));
    assert_eq!(hit_location(45), Some("Torse"));
    assert_eq!(hit_location(80), Some("Abdomen"));
    assert_eq!(hit_location(88), Some("Jambe gauche"));
    assert_eq!(hit_location(89), Some("Pied gauche"));
    assert_eq!(hit_location(99), Some("Jambe droite"));
    assert_eq!(hit_location(100), Some("Pied droit"));
    assert_eq!(hit_location(101), None);
}

#[test]
fn fixed_commands() {
    assert_eq!(Command::Pouet.execute().unwrap(), "Pouet!");
    assert_eq!(Command::Coupable.execute().unwrap(), "Jovial.");
    assert_eq!(Command::Say(String::from("bonjour")).execute().unwrap(), "bonjour");
    let help = Command::Help.execute().unwrap();
    assert_eq!(help, HELP_TEXT);
    assert!(help.starts_with("\n#Syntaxe\n"));
}

#[test]
fn commented_and_listed_commands() {
    let c = Command::CommentedCmd(String::from("note"), Box::new(Command::Pouet));
    assert_eq!(c.execute().unwrap(), "##note\nPouet!");
    let l = Command::CmdList(vec![Command::Pouet, Command::Coupable]);
    assert_eq!(
        l.execute().unwrap(),
        "===================================\nPouet!\n===================================\nJovial.\n"
    );
    assert_eq!(Command::CmdList(vec![]).execute().unwrap(), "");
}

#[test]
fn roll_command_rolls_n_dice() {
    let out = Command::Roll(100, 4).execute().unwrap();
    assert!(out.starts_with(' '));
    let rolls = numbers(&out);
    assert_eq!(rolls.len(), 4);
    assert!(rolls.iter().all(|r| (1..=100).contains(r)));
    assert_eq!(Command::Roll(6, 0).execute().unwrap(), "");
    assert_eq!(Command::Roll(6, -3).execute().unwrap(), "");
}

#[test]
fn warhammer_command() {
    let out = Command::Warhammer { score: 64 }.execute().unwrap();
    let (d, rest) = out.split_once(": ").unwrap();
    let d: i64 = d.parse().unwrap();
    assert!((1..=100).contains(&d));
    assert_eq!(out, warhammer_report(d, 64));
    assert!(rest.ends_with(" degrés"));
}

#[test]
fn shadowrun_command_sorts_its_dice() {
    let out = Command::Shadowrun(10, Some(3)).execute().unwrap();
    let (dice, _) = out[1..].split_once(']').unwrap();
    let rolls = numbers(dice);
    assert_eq!(rolls.len(), 10);
    assert!(rolls.windows(2).all(|w| w[0] <= w[1]));
    assert!(rolls.iter().all(|r| (1..=6).contains(r)));
    assert_eq!(out, shadowrun_report(&rolls, Some(3)));
}

#[test]
fn degenesis_command_caps_the_pool() {
    let out = Command::Degenesis(17, None).execute().unwrap();
    let (dice, _) = out[1..].split_once(']').unwrap();
    let rolls = numbers(dice);
    assert_eq!(rolls.len(), 12);
    assert!(out.contains("(5 automatiques) "));
    assert_eq!(out, degenesis_report(17, &rolls, None));
}

#[test]
fn trudvang_with_high_threshold_never_explodes() {
    for _ in 0..50 {
        let out = Command::Trudvang(3, 11, 0).execute().unwrap();
        let (runs, total) = out.split_once('\n').unwrap();
        let runs: Vec<&str> = runs.split("] ").filter(|s| !s.is_empty()).collect();
        assert_eq!(runs.len(), 3);
        let mut sum = 0;
        for r in runs {
            let v = numbers(r.trim_start_matches('['));
            assert_eq!(v.len(), 1);
            assert!((1..=10).contains(&v[0]));
            sum += v[0];
        }
        assert_eq!(total, format!("Total: {}", sum));
    }
}

#[test]
fn low_threshold_runs_away() {
    assert_eq!(Command::Trudvang(2, 0, 0).execute().unwrap(), RUNAWAY);
    assert_eq!(Command::Trudvang(1, 1, 5).execute().unwrap(), RUNAWAY);
    assert_eq!(Command::Brigandine { explode_tresh: 1 }.execute().unwrap(), RUNAWAY);
}

#[test]
fn trudvang_without_dice_reports_the_bonus() {
    assert_eq!(Command::Trudvang(0, 0, 4).execute().unwrap(), "\nTotal: 4");
}

#[test]
fn brigandine_command() {
    for _ in 0..100 {
        match (Command::Brigandine { explode_tresh: 10 }).execute() {
            Some(out) => {
                assert!(out.starts_with("test: "));
                assert!(out.contains("\nlocalisation: "));
            }
            None => {}
        }
    }
}

#[test]
fn deterministic_failures_are_detected() {
    assert!(!Command::Roll(0, 3).is_runnable());
    assert!(Command::Roll(0, 0).is_runnable());
    assert!(Command::Roll(6, 3).is_runnable());
    assert!(!Command::Trudvang(-1, 8, 0).is_runnable());
    assert!(Command::Trudvang(0, 8, 0).is_runnable());
    assert!(!Command::CmdList(vec![Command::Pouet, Command::Roll(0, 1)]).is_runnable());
    assert!(!Command::CommentedCmd(String::from("c"), Box::new(Command::Roll(0, 2))).is_runnable());
    assert!(Command::CmdList(vec![Command::Help, Command::Say(String::from("x"))]).is_runnable());
}

#[test]
fn logged_run_returns_brigandine_readings_in_order() {
    let cmds = Command::CmdList(vec![
        Command::Brigandine { explode_tresh: 11 },
        Command::Pouet,
        Command::CommentedCmd(String::from("c"), Box::new(Command::Brigandine { explode_tresh: 11 })),
    ]);
    let (out, readings) = cmds.execute_logged();
    assert!(readings.len() >= 1 && readings.len() <= 2);
    assert!(readings.iter().all(|r| (0..=99).contains(r)));
    match out {
        Some(text) => {
            assert_eq!(readings.len(), 2);
            let tests: Vec<i64> = text
                .split("test: ")
                .skip(1)
                .map(|p| p.split(' ').next().unwrap().parse().unwrap())
                .collect();
            for (t, r) in tests.iter().zip(readings.iter()) {
                assert_eq!(*r, (t % 10) * 10 + t / 10);
            }
        }
        None => assert_eq!(*readings.last().unwrap(), 0),
    }
    let (out, readings) = Command::Say(String::from("x")).execute_logged();
    assert_eq!(out.unwrap(), "x");
    assert!(readings.is_empty());
}
