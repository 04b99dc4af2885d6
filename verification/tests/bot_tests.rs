use dice_bot::bot::{
    command_text, forget_reply, list_reply, markdown_reply, no_previous_entry, onebi, onebi_output,
    plan, register_reply, run_reply, BotOutput, Error, Step,
};
use dice_bot::bot::{after_recall, inverse_line, Recalled};
use dice_bot::commands::Command;
use dice_bot::text::{chars_of, split_words};

fn text_of(out: &BotOutput) -> &str {
    match out {
        BotOutput::Text(t) => t.as_str(),
        _ => panic!("not a text reply"),
    }
}

fn image_of(out: &BotOutput) -> (&str, Option<&str>) {
    match out {
        BotOutput::Image { url, maybe_text } => (url.as_str(), maybe_text.as_deref()),
        _ => panic!("not an image reply"),
    }
}

fn answer(text: &str) -> BotOutput {
    match plan(text) {
        Ok(Step::Answer(out)) => out,
        _ => panic!("not an answer"),
    }
}

#[test]
fn command_text_needs_a_question_mark() {
    assert_eq!(command_text("?Hello World").as_deref(), Some("hello world"));
    assert_eq!(command_text("?").as_deref(), Some(""));
    assert_eq!(command_text("?ÉTÉ Re").as_deref(), Some("ÉtÉ re"));
    assert_eq!(command_text("hello ?x"), None);
    assert_eq!(command_text(""), None);
}

#[test]
fn words_split_on_unicode_white_space() {
    let ws = split_words(&chars_of("  a\tbc\u{3000}d \u{a0}"));
    assert_eq!(ws, vec!["a", "bc", "d"]);
    assert!(split_words(&chars_of(" \n ")).is_empty());
}

#[test]
fn empty_text_gets_no_answer() {
    assert!(matches!(answer(""), BotOutput::Nothing));
    assert!(matches!(answer("   "), BotOutput::Nothing));
}

#[test]
fn picture_answers() {
    assert_eq!(image_of(&answer("aria")), ("assets/cheems.jpg", None));
    assert_eq!(image_of(&answer("haha")), ("assets/haha_nelson.jpg", Some("Haha!")));
    assert_eq!(image_of(&answer("  emig  ignored")), ("assets/emig.png", None));
    assert!(matches!(plan("onebi"), Ok(Step::Onebi)));
}

#[test]
fn onebi_picks_by_draw() {
    assert_eq!(image_of(&onebi_output(0)), ("assets/tehc.png", None));
    assert_eq!(image_of(&onebi_output(7)), ("assets/dorian.png", None));
    for _ in 0..50 {
        let out = onebi();
        let (url, caption) = image_of(&out);
        assert!(url == "assets/tehc.png" || url == "assets/dorian.png");
        assert_eq!(caption, None);
    }
}

#[test]
fn stored_command_steps() {
    match plan("re") {
        Ok(Step::Recall { name }) => assert_eq!(name, "__last_entry"),
        _ => panic!(),
    }
    match plan("re attaque") {
        Ok(Step::Recall { name }) => assert_eq!(name, "attaque"),
        _ => panic!(),
    }
    assert!(matches!(plan("list"), Ok(Step::List)));
    match plan("forget attaque") {
        Ok(Step::Forget { name }) => assert_eq!(name, "attaque"),
        _ => panic!(),
    }
}

#[test]
fn missing_names_are_errors() {
    match plan("forget") {
        Err(e) => assert_eq!(e.message(), "bad unwrap 1"),
        _ => panic!(),
    }
    match plan("register") {
        Err(e) => assert_eq!(e.message(), "bad unwrap 2"),
        _ => panic!(),
    }
}

#[test]
fn register_keeps_the_code_after_the_name() {
    match plan("register attaque 1d6 ; 2d8") {
        Ok(Step::Register { name, code }) => {
            assert_eq!(name, "attaque");
            assert_eq!(code, " 1d6 ; 2d8");
        }
        _ => panic!(),
    }
    match plan("register x") {
        Ok(Step::Register { name, code }) => {
            assert_eq!(name, "x");
            assert_eq!(code, "");
        }
        _ => panic!(),
    }
}

#[test]
fn register_cuts_after_eight_bytes() {
    match plan("  register x y") {
        Ok(Step::Register { name, code }) => {
            assert_eq!(name, "x");
            assert_eq!(code, " x y");
        }
        _ => panic!(),
    }
}

#[test]
fn lisp_and_dice_commands() {
    match plan("lisp (+ 1 2)") {
        Ok(Step::Lisp { code }) => assert_eq!(code, " (+ 1 2)"),
        _ => panic!(),
    }
    match plan("4d100 ; wh 64") {
        Ok(Step::Run { text }) => assert_eq!(text, "4d100 ; wh 64"),
        _ => panic!(),
    }
    match plan("lispy") {
        Ok(Step::Run { text }) => assert_eq!(text, "lispy"),
        _ => panic!(),
    }
}

#[test]
fn text_replies() {
    assert_eq!(text_of(&markdown_reply("x")), "```Markdown\nx\n```");
    assert_eq!(text_of(&no_previous_entry("bob")), "No previous entry for bob");
    assert_eq!(text_of(&forget_reply("n", "bob")), "Commande n de bob supprimée");
    assert_eq!(text_of(&register_reply("bob", "n")), "Commande enregistrée pour bob en tant que 'n'");
}

#[test]
fn listing_hides_private_and_incomplete_rows() {
    let rows = vec![
        (Some(String::from("a")), Some(String::from("1d6"))),
        (Some(String::from("_x")), Some(String::from("y"))),
        (None, Some(String::from("z"))),
        (Some(String::from("b")), Some(String::from("wh 50"))),
        (Some(String::from("c")), None),
    ];
    assert_eq!(text_of(&list_reply("bob", &rows)), "```a: 1d6\nb: wh 50\n```");
    assert_eq!(text_of(&list_reply("bob", &vec![])), "```Pas de macros enregistrées pour bob```");
    let hidden = vec![(Some(String::from("__last_entry")), Some(String::from("d6")))];
    assert_eq!(text_of(&list_reply("bob", &hidden)), "```Pas de macros enregistrées pour bob```");
}

#[test]
fn dice_command_reply() {
    let (out, lines) = run_reply(Command::Pouet);
    assert_eq!(text_of(&out.unwrap()), "```Markdown\nPouet!\n```");
    assert!(lines.is_empty());
}

#[test]
fn errors_keep_their_message() {
    assert_eq!(Error::new("boom").message(), "boom");
    let converted: Result<i32, Error> = Error::convert_result(Err::<i32, &str>("oops"));
    assert_eq!(converted.unwrap_err().message(), "\"oops\"");
    assert_eq!(Error::convert_result(Ok::<i32, &str>(3)).unwrap(), 3);
    assert_eq!(Error::from_other(42).message(), "42");
}

#[test]
fn byte_slicing_needs_a_char_boundary() {
    assert!(dice_bot::bot::is_plannable("register x y"));
    assert!(dice_bot::bot::is_plannable("lisp (+ 1 2)"));
    assert!(dice_bot::bot::is_plannable("4d6"));
    assert!(dice_bot::bot::is_plannable(""));
    assert!(!dice_bot::bot::is_plannable("\u{3000}\u{3000}\u{3000}register x"));
    assert!(!dice_bot::bot::is_plannable("  \u{3000}lisp x"));
}

#[test]
fn brigandine_reply_prints_its_reading() {
    for _ in 0..50 {
        let (out, lines) = run_reply(Command::Brigandine { explode_tresh: 10 });
        assert_eq!(lines.len(), 1);
        let reading: i64 = lines[0].strip_prefix("inverse: ").unwrap().parse().unwrap();
        assert!((0..=99).contains(&reading));
        assert_eq!(out.is_none(), reading == 0);
    }
    let (out, lines) = run_reply(Command::Brigandine { explode_tresh: 0 });
    assert!(lines.is_empty());
    assert_eq!(text_of(&out.unwrap()), "```Markdown\nnan mais t'abuse là avec ton dé explosif\n```");
}

#[test]
fn inverse_lines() {
    assert_eq!(inverse_line(73), "inverse: 73");
    assert_eq!(inverse_line(0), "inverse: 0");
}

#[test]
fn recall_reruns_what_was_found() {
    match after_recall(Some(String::from("4d6")), "bob") {
        Recalled::Rerun(t) => assert_eq!(t, "4d6"),
        _ => panic!(),
    }
    match after_recall(None, "bob") {
        Recalled::Reply(out) => assert_eq!(text_of(&out), "No previous entry for bob"),
        _ => panic!(),
    }
}
