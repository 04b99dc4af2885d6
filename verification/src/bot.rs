//! What the bot answers to a chat message: which action a message asks for,
//! and the replies that those actions produce.
use vstd::prelude::*;

use vstd::utf8::{decode_utf8, encode_utf8, is_char_boundary};

use crate::text::{
    chars_of, is_space, is_white_space, lower_text, lowercase_from, skip_spaces, skip_word,
    split_words, string_views, words,
};

verus! {

/// What the bot sends back.
pub enum BotOutput {
    Text(String),
    Image { url: String, maybe_text: Option<String> },
    Nothing,
}

/// An error of the bot, with its message.
#[derive(Debug, Clone)]
pub struct Error(String);

impl View for Error {
    type V = Seq<char>;

    closed spec fn view(&self) -> Seq<char> {
        self.0@
    }
}

impl Error {
    /// An error with the given message.
    pub fn new(msg: &str) -> (err: Error)
        ensures
            err@ == msg@,
    {
        Error(String::from_str(msg))
    }

    /// The message of the error.
    pub fn message(&self) -> (msg: &str)
        ensures
            msg@ == self@,
    {
        self.0.as_str()
    }

    /// An error whose message is the `Debug` text of `err` (`format!("{:?}", err)`).
    /// Nothing is stated of that text: it is what the `Debug` impl of `E` writes.
    #[verifier::external_body]
    pub fn from_other<E: std::fmt::Debug>(err: E) -> Error {
        Error(format!("{:?}", err))
    }

    /// Keeps a success as it is and turns a failure into an error of the bot.
    pub fn convert_result<T, E: std::fmt::Debug>(res: Result<T, E>) -> (converted: Result<T, Error>)
        ensures
            res is Ok <==> converted is Ok,
            res matches Ok(v) ==> converted == Ok::<T, Error>(v),
    {
        match res {
            Ok(thing) => Ok(thing),
            Err(err) => Err(Error::from_other(err)),
        }
    }
}

/// The text of a message addressed to the bot: a message that starts with
/// `?` addresses it, and the text is what follows, in ASCII lower case.
pub open spec fn command_text_of(content: Seq<char>) -> Option<Seq<char>> {
    if content.len() > 0 && content[0] == '?' {
        Some(lower_text(content.skip(1)))
    } else {
        None
    }
}

/// The command text of a chat message, or `None` when it is not addressed to the bot.
pub fn command_text(content: &str) -> (text: Option<String>)
    ensures
        match text {
            Some(t) => command_text_of(content@) == Some(t@),
            None => command_text_of(content@) is None,
        },
{
    let chars = chars_of(content);
    if chars.len() > 0 && chars[0] == '?' {
        Some(lowercase_from(&chars, 1))
    } else {
        None
    }
}

/// The text of a message addressed to the bot holds no ASCII capital letter,
/// so commands are recognised whatever the case they were typed in.
pub proof fn law_command_text_is_lowercase(content: Seq<char>)
    ensures
        command_text_of(content) matches Some(t) ==> forall|i: int|
            0 <= i < t.len() ==> !('A' <= #[trigger] t[i] <= 'Z'),
{
    if let Some(t) = command_text_of(content) {
        assert forall|i: int| 0 <= i < t.len() implies !('A' <= #[trigger] t[i] <= 'Z') by {
            let c = content.skip(1)[i];
            assert(t[i] == crate::text::ascii_lower(c));
            if 'A' <= c <= 'Z' {
                assert((c as u32) + 32 >= 97);
            }
        }
    }
}

/// The characters after the first `k` bytes of the UTF-8 encoding of `text`.
pub open spec fn after_byte(text: Seq<char>, k: int) -> Seq<char> {
    decode_utf8(encode_utf8(text).subrange(k, encode_utf8(text).len() as int))
}

/// The code of a `register` message: what follows the first 8 bytes, once the
/// white space and the word that come first are dropped.
pub open spec fn register_code_of(text: Seq<char>) -> Seq<char> {
    skip_word(skip_spaces(after_byte(text, 8)))
}

/// The text after the first `k` bytes (`&text[k..]`).
fn tail_after(text: &str, k: usize) -> (tail: &str)
    requires
        is_char_boundary(encode_utf8(text@), k as int),
    ensures
        tail@ == after_byte(text@, k as int),
{
    let (_, tail) = text.split_at(k);
    proof {
        vstd::utf8::encode_utf8_decode_utf8(tail@);
    }
    tail
}

proof fn lemma_skip_spaces_exact(t: Seq<char>, k: int)
    requires
        0 <= k <= t.len(),
        forall|m: int| 0 <= m < k ==> is_space(#[trigger] t[m]),
        k == t.len() || !is_space(t[k]),
    ensures
        skip_spaces(t) == t.skip(k),
    decreases k,
{
    if k > 0 {
        assert forall|m: int| 0 <= m < k - 1 implies is_space(#[trigger] t.drop_first()[m]) by {
            assert(t.drop_first()[m] == t[m + 1]);
        }
        lemma_skip_spaces_exact(t.drop_first(), k - 1);
        assert(t.drop_first().skip(k - 1) =~= t.skip(k));
    } else {
        assert(t.skip(0) =~= t);
    }
}

proof fn lemma_skip_word_exact(t: Seq<char>, k: int)
    requires
        0 <= k <= t.len(),
        forall|m: int| 0 <= m < k ==> !is_space(#[trigger] t[m]),
        k == t.len() || is_space(t[k]),
    ensures
        skip_word(t) == t.skip(k),
    decreases k,
{
    if k > 0 {
        assert forall|m: int| 0 <= m < k - 1 implies !is_space(#[trigger] t.drop_first()[m]) by {
            assert(t.drop_first()[m] == t[m + 1]);
        }
        lemma_skip_word_exact(t.drop_first(), k - 1);
        assert(t.drop_first().skip(k - 1) =~= t.skip(k));
    } else {
        assert(t.skip(0) =~= t);
    }
}

/// Drops the leading white space, then the word that follows it.
fn skip_first_word(chars: &Vec<char>) -> (rest: String)
    ensures
        rest@ == skip_word(skip_spaces(chars@)),
{
    let ghost s = chars@;
    let mut i: usize = 0;
    while i < chars.len() && is_white_space(chars[i])
        invariant
            s == chars@,
            i <= chars.len(),
            forall|m: int| 0 <= m < i ==> is_space(#[trigger] s[m]),
        decreases chars.len() - i,
    {
        i = i + 1;
    }
    let start = i;
    proof {
        lemma_skip_spaces_exact(s, start as int);
    }
    while i < chars.len() && !is_white_space(chars[i])
        invariant
            s == chars@,
            start <= i <= chars.len(),
            forall|m: int| start <= m < i ==> !is_space(#[trigger] s[m]),
        decreases chars.len() - i,
    {
        i = i + 1;
    }
    let ghost t = s.skip(start as int);
    proof {
        assert forall|m: int| 0 <= m < i - start implies !is_space(#[trigger] t[m]) by {
            assert(t[m] == s[start + m]);
        }
        if i < chars.len() {
            assert(t[i - start] == s[i as int]);
        }
        lemma_skip_word_exact(t, i - start);
        assert(t.skip(i - start) =~= s.skip(i as int));
    }
    let mut rest = String::new();
    let mut k: usize = i;
    while k < chars.len()
        invariant
            s == chars@,
            i <= k <= chars.len(),
            rest@ == s.subrange(i as int, k as int),
        decreases chars.len() - k,
    {
        crate::text::push_char(&mut rest, chars[k]);
        assert(rest@ =~= s.subrange(i as int, k + 1));
        k = k + 1;
    }
    assert(s.subrange(i as int, k as int) =~= s.skip(i as int));
    rest
}


/// What a command text asks the bot to do.
pub enum Step {
    /// Answer at once.
    Answer(BotOutput),
    /// Answer with one of the `onebi` replies, picked at random.
    Onebi,
    /// Run again the command that the author stored under `name`.
    Recall { name: String },
    /// List the commands that the author stored.
    List,
    /// Delete the author's command stored under `name`.
    Forget { name: String },
    /// Store `code` under `name` for the author.
    Register { name: String, code: String },
    /// Store the text as the author's last entry, then evaluate `code` as Lisp.
    Lisp { code: String },
    /// Store the text as the author's last entry, then run it as dice commands.
    Run { text: String },
}

/// The name under which the last command of an author is stored.
pub const LAST_ENTRY_NAME: &'static str = "__last_entry";

/// The name under which the last command of an author is stored.
pub open spec fn last_entry_name() -> Seq<char> {
    LAST_ENTRY_NAME@
}

/// `out` is an image reply with the given file and caption.
pub open spec fn is_image(out: BotOutput, file: Seq<char>, caption: Option<Seq<char>>) -> bool {
    match out {
        BotOutput::Image { url, maybe_text } => url@ == file && match (maybe_text, caption) {
            (None, None) => true,
            (Some(t), Some(c)) => t@ == c,
            _ => false,
        },
        _ => false,
    }
}

/// The second word of a text, or `default` when it has fewer than two words.
pub open spec fn second_word_or(text: Seq<char>, default: Seq<char>) -> Seq<char> {
    if words(text).len() >= 2 {
        words(text)[1]
    } else {
        default
    }
}

/// What the command text asks for, by its first word: nothing when it has
/// no word; `onebi`, `aria`, `haha`, `emig` pick a picture; `re [name]`
/// recalls a stored command (the last one by default); `list`, `forget
/// <name>`, `register <name> <code>` manage the stored commands; `lisp`
/// evaluates what follows; any other text is run as dice commands.
/// `forget` and `register` without a name are errors.
pub open spec fn planned(text: Seq<char>, res: Result<Step, Error>) -> bool {
    let ws = words(text);
    if ws.len() == 0 {
        res matches Ok(Step::Answer(BotOutput::Nothing))
    } else if ws[0] == "onebi"@ {
        res matches Ok(Step::Onebi)
    } else if ws[0] == "aria"@ {
        res matches Ok(Step::Answer(out)) && is_image(out, "assets/cheems.jpg"@, None)
    } else if ws[0] == "re"@ {
        res matches Ok(Step::Recall { name }) && name@ == second_word_or(text, last_entry_name())
    } else if ws[0] == "haha"@ {
        res matches Ok(Step::Answer(out)) && is_image(out, "assets/haha_nelson.jpg"@, Some("Haha!"@))
    } else if ws[0] == "emig"@ {
        res matches Ok(Step::Answer(out)) && is_image(out, "assets/emig.png"@, None)
    } else if ws[0] == "list"@ {
        res matches Ok(Step::List)
    } else if ws[0] == "forget"@ {
        if ws.len() >= 2 {
            res matches Ok(Step::Forget { name }) && name@ == ws[1]
        } else {
            res matches Err(e) && e@ == "bad unwrap 1"@
        }
    } else if ws[0] == "register"@ {
        if ws.len() >= 2 {
            res matches Ok(Step::Register { name, code }) && name@ == ws[1] && code@ == register_code_of(text)
        } else {
            res matches Err(e) && e@ == "bad unwrap 2"@
        }
    } else if ws[0] == "lisp"@ {
        res matches Ok(Step::Lisp { code }) && code@ == after_byte(text, 4)
    } else {
        res matches Ok(Step::Run { text: t }) && t@ == text
    }
}

/// The byte slicing that `register` and `lisp` do falls on a character boundary.
pub open spec fn plannable(text: Seq<char>) -> bool {
    let ws = words(text);
    &&& (ws.len() > 0 && ws[0] == "register"@) ==> is_char_boundary(encode_utf8(text), 8)
    &&& (ws.len() > 0 && ws[0] == "lisp"@) ==> is_char_boundary(encode_utf8(text), 4)
}

/// Whether the byte slicing that [`plan`] does on `text` falls on character boundaries.
pub fn is_plannable(text: &str) -> (b: bool)
    ensures
        b == plannable(text@),
{
    proof {
        reveal_strlit("register");
        reveal_strlit("lisp");
    }
    let chars = chars_of(text);
    let ws = split_words(&chars);
    assert(string_views(ws@).len() == ws@.len());
    if ws.len() == 0 {
        return true;
    }
    assert(ws[0]@ == words(text@)[0]);
    if is_word(&ws[0], "register") {
        text.is_char_boundary(8)
    } else if is_word(&ws[0], "lisp") {
        text.is_char_boundary(4)
    } else {
        true
    }
}

fn is_word(w: &String, lit: &str) -> (b: bool)
    ensures
        b == (w@ == lit@),
{
    let l = String::from_str(lit);
    *w == l
}

/// Decides what the command text asks for.
pub fn plan(text: &str) -> (res: Result<Step, Error>)
    requires
        plannable(text@),
    ensures
        planned(text@, res),
{
    proof {
        reveal_strlit("onebi");
        reveal_strlit("aria");
        reveal_strlit("re");
        reveal_strlit("haha");
        reveal_strlit("emig");
        reveal_strlit("list");
        reveal_strlit("forget");
        reveal_strlit("register");
        reveal_strlit("lisp");
    }
    let chars = chars_of(text);
    let ws = split_words(&chars);
    assert(string_views(ws@).len() == ws@.len());
    if ws.len() == 0 {
        return Ok(Step::Answer(BotOutput::Nothing));
    }
    let first = &ws[0];
    assert(first@ == words(text@)[0]);
    if is_word(first, "onebi") {
        Ok(Step::Onebi)
    } else if is_word(first, "aria") {
        Ok(Step::Answer(BotOutput::Image { url: String::from_str("assets/cheems.jpg"), maybe_text: None }))
    } else if is_word(first, "re") {
        let name = if ws.len() >= 2 {
            assert(ws[1]@ == words(text@)[1]);
            ws[1].clone()
        } else {
            String::from_str(LAST_ENTRY_NAME)
        };
        Ok(Step::Recall { name })
    } else if is_word(first, "haha") {
        Ok(
            Step::Answer(
                BotOutput::Image {
                    url: String::from_str("assets/haha_nelson.jpg"),
                    maybe_text: Some(String::from_str("Haha!")),
                },
            ),
        )
    } else if is_word(first, "emig") {
        Ok(Step::Answer(BotOutput::Image { url: String::from_str("assets/emig.png"), maybe_text: None }))
    } else if is_word(first, "list") {
        Ok(Step::List)
    } else if is_word(first, "forget") {
        if ws.len() >= 2 {
            assert(ws[1]@ == words(text@)[1]);
            Ok(Step::Forget { name: ws[1].clone() })
        } else {
            Err(Error::new("bad unwrap 1"))
        }
    } else if is_word(first, "register") {
        let tail = tail_after(text, 8);
        let tail_chars = chars_of(tail);
        let code = skip_first_word(&tail_chars);
        if ws.len() >= 2 {
            assert(ws[1]@ == words(text@)[1]);
            Ok(Step::Register { name: ws[1].clone(), code })
        } else {
            Err(Error::new("bad unwrap 2"))
        }
    } else if is_word(first, "lisp") {
        let tail = tail_after(text, 4);
        Ok(Step::Lisp { code: String::from_str(tail) })
    } else {
        Ok(Step::Run { text: String::from_str(text) })
    }
}

/// The text of the first `onebi` reply.
pub open spec fn onebi_mentions() -> Seq<char> {
    "<@!243288980039270402> <@!243288980039270402> <@!243288980039270402> <@!243288980039270402> <@!243288980039270402> <@!243288980039270402> <@!243288980039270402> <@!243288980039270402> <@!243288980039270402> <@!243288980039270402> <@!243288980039270402> <@!243288980039270402> <@!243288980039270402> <@!243288980039270402> <@!243288980039270402> <@!243288980039270402> <@!243288980039270402> <@!243288980039270402> <@!243288980039270402> <@!243288980039270402> <@!243288980039270402> <@!243288980039270402> <@!243288980039270402> <@!243288980039270402> "@
}

/// The `onebi` reply for a random draw: `draw % 2 + 1` picks the picture
/// (1 the first one, anything else the second; 0, which no draw gives, the mentions).
pub fn onebi_output(draw: u32) -> (out: BotOutput)
    ensures
        draw % 2 + 1 == 0 ==> (out matches BotOutput::Text(t) && t@ == onebi_mentions()),
        draw % 2 + 1 == 1 ==> is_image(out, "assets/tehc.png"@, None),
        draw % 2 + 1 >= 2 ==> is_image(out, "assets/dorian.png"@, None),
{
    match draw % 2 + 1 {
        0 => BotOutput::Text(
            String::from_str(
                "<@!243288980039270402> <@!243288980039270402> <@!243288980039270402> <@!243288980039270402> <@!243288980039270402> <@!243288980039270402> <@!243288980039270402> <@!243288980039270402> <@!243288980039270402> <@!243288980039270402> <@!243288980039270402> <@!243288980039270402> <@!243288980039270402> <@!243288980039270402> <@!243288980039270402> <@!243288980039270402> <@!243288980039270402> <@!243288980039270402> <@!243288980039270402> <@!243288980039270402> <@!243288980039270402> <@!243288980039270402> <@!243288980039270402> <@!243288980039270402> ",
            ),
        ),
        1 => BotOutput::Image { url: String::from_str("assets/tehc.png"), maybe_text: None },
        _ => BotOutput::Image { url: String::from_str("assets/dorian.png"), maybe_text: None },
    }
}

/// Draws a uniformly random `u32` from the thread-local generator
/// (`rand::random::<u32>`). Nothing is promised of the value.
#[verifier::external_body]
fn random_u32() -> u32 {
    rand::random::<u32>()
}

/// Answers `onebi`: one of two pictures, picked at random.
pub fn onebi() -> (out: BotOutput)
    ensures
        is_image(out, "assets/tehc.png"@, None) || is_image(out, "assets/dorian.png"@, None),
{
    let draw = random_u32();
    onebi_output(draw)
}


/// `out` is a text reply with the given text.
pub open spec fn is_text(out: BotOutput, text: Seq<char>) -> bool {
    out matches BotOutput::Text(t) && t@ == text
}

/// Answers with `body` in a Markdown code block.
pub fn markdown_reply(body: &str) -> (out: BotOutput)
    ensures
        is_text(out, "```Markdown\n"@ + body@ + "\n```"@),
{
    let mut t = String::from_str("```Markdown\n");
    t.append(body);
    t.append("\n```");
    BotOutput::Text(t)
}

/// Answers a recall of a name under which nothing is stored.
pub fn no_previous_entry(realname: &str) -> (out: BotOutput)
    ensures
        is_text(out, "No previous entry for "@ + realname@),
{
    let mut t = String::from_str("No previous entry for ");
    t.append(realname);
    BotOutput::Text(t)
}

/// Answers the deletion of a stored command.
pub fn forget_reply(name: &str, realname: &str) -> (out: BotOutput)
    ensures
        is_text(out, "Commande "@ + name@ + " de "@ + realname@ + " supprimée"@),
{
    let mut t = String::from_str("Commande ");
    t.append(name);
    t.append(" de ");
    t.append(realname);
    t.append(" supprimée");
    BotOutput::Text(t)
}

/// Answers the registration of a command.
pub fn register_reply(realname: &str, name: &str) -> (out: BotOutput)
    ensures
        is_text(out, "Commande enregistrée pour "@ + realname@ + " en tant que '"@ + name@ + "'"@),
{
    let mut t = String::from_str("Commande enregistrée pour ");
    t.append(realname);
    t.append(" en tant que '");
    t.append(name);
    t.append("'");
    BotOutput::Text(t)
}

/// The list entry of a stored row: `name: code` when both are present.
pub open spec fn entry_of(row: (Option<String>, Option<String>)) -> Option<Seq<char>> {
    match row {
        (Some(name), Some(code)) => Some(name@ + ": "@ + code@),
        _ => None,
    }
}

/// An entry is shown unless it starts with `_` (the bot's own entries).
pub open spec fn is_shown(entry: Seq<char>) -> bool {
    !(entry.len() > 0 && entry[0] == '_')
}

/// The entries shown for the stored rows, in order.
pub open spec fn shown_entries(rows: Seq<(Option<String>, Option<String>)>) -> Seq<Seq<char>>
    decreases rows.len(),
{
    if rows.len() == 0 {
        Seq::empty()
    } else {
        let before = shown_entries(rows.drop_last());
        match entry_of(rows.last()) {
            Some(e) => if is_shown(e) {
                before.push(e)
            } else {
                before
            },
            None => before,
        }
    }
}

/// The entries, each followed by a new line.
pub open spec fn lines(entries: Seq<Seq<char>>) -> Seq<char>
    decreases entries.len(),
{
    if entries.len() == 0 {
        Seq::empty()
    } else {
        lines(entries.drop_last()) + entries.last() + "\n"@
    }
}

/// The listing of an author's stored commands.
pub open spec fn listing(realname: Seq<char>, rows: Seq<(Option<String>, Option<String>)>) -> Seq<
    char,
> {
    let entries = shown_entries(rows);
    let body = if entries.len() > 0 {
        lines(entries)
    } else {
        "Pas de macros enregistrées pour "@ + realname
    };
    "```"@ + body + "```"@
}

/// A stored row that a listing shows: its name and its code are both
/// present, and the name does not start with `_`.
pub open spec fn visible_row() -> spec_fn((Option<String>, Option<String>)) -> bool {
    |row: (Option<String>, Option<String>)|
        match row {
            (Some(name), Some(_)) => !(name@.len() > 0 && name@[0] == '_'),
            _ => false,
        }
}

/// The line of a listing for a stored row: `name: code`.
pub open spec fn row_line() -> spec_fn((Option<String>, Option<String>)) -> Seq<char> {
    |row: (Option<String>, Option<String>)|
        match row {
            (Some(name), Some(code)) => name@ + ": "@ + code@,
            _ => Seq::empty(),
        }
}

/// The listing of an author's stored commands shows, in order, one
/// `name: code` line for every stored row that has both a name and a code and
/// whose name does not start with `_`; any other row is left out (a name
/// holding `_` elsewhere is shown). With no such row it says that nothing is
/// stored for the author.
pub proof fn law_listing_shows_visible_rows(realname: Seq<char>, rows: Seq<(Option<String>, Option<String>)>)
    ensures
        shown_entries(rows) == rows.filter(visible_row()).map_values(row_line()),
        listing(realname, rows) == "```"@ + (if rows.filter(visible_row()).len() > 0 {
            lines(rows.filter(visible_row()).map_values(row_line()))
        } else {
            "Pas de macros enregistrées pour "@ + realname
        }) + "```"@,
    decreases rows.len(),
{
    reveal(Seq::filter);
    if rows.len() > 0 {
        law_listing_shows_visible_rows(realname, rows.drop_last());
        let kept = rows.drop_last().filter(visible_row());
        let last = rows.last();
        match last {
            (Some(name), Some(code)) => {
                let e = name@ + ": "@ + code@;
                reveal_strlit(": ");
                if name@.len() > 0 {
                    assert(e[0] == name@[0]);
                } else {
                    assert(e[0] == ':');
                }
                assert(is_shown(e) == visible_row()(last));
                if visible_row()(last) {
                    assert(kept.push(last).map_values(row_line()) =~= kept.map_values(row_line()).push(
                        e,
                    ));
                }
            },
            _ => {},
        }
    }
}

/// Answers `list` with the author's stored rows (name, code).
pub fn list_reply(realname: &str, rows: &Vec<(Option<String>, Option<String>)>) -> (out: BotOutput)
    ensures
        is_text(out, listing(realname@, rows@)),
{
    let mut body = String::new();
    let mut count: usize = 0;
    let mut i: usize = 0;
    while i < rows.len()
        invariant
            i <= rows.len(),
            count == shown_entries(rows@.take(i as int)).len(),
            count <= i,
            body@ == lines(shown_entries(rows@.take(i as int))),
        decreases rows.len() - i,
    {
        let ghost before = shown_entries(rows@.take(i as int));
        assert(rows@.take(i + 1).drop_last() =~= rows@.take(i as int));
        assert(rows@.take(i + 1).last() == rows@[i as int]);
        match &rows[i] {
            (Some(name), Some(code)) => {
                let mut entry = name.clone();
                entry.append(": ");
                entry.append(code.as_str());
                let chars = chars_of(entry.as_str());
                let hidden = chars.len() > 0 && chars[0] == '_';
                if !hidden {
                    body.append(entry.as_str());
                    body.append("\n");
                    count = count + 1;
                    assert(shown_entries(rows@.take(i + 1)) == before.push(entry@));
                    assert(before.push(entry@).drop_last() =~= before);
                    assert(body@ =~= lines(before.push(entry@)));
                }
            },
            _ => {},
        }
        i = i + 1;
    }
    assert(rows@.take(i as int) =~= rows@);
    let mut t = String::from_str("```");
    if count > 0 {
        t.append(body.as_str());
    } else {
        t.append("Pas de macros enregistrées pour ");
        t.append(realname);
    }
    t.append("```");
    assert(t@ =~= listing(realname@, rows@));
    BotOutput::Text(t)
}

/// Runs a dice command and answers with its report in a Markdown code block;
/// `None` where the command cannot complete. Also returns the lines that the
/// run prints: one `inverse: <reading>` line per Brigandine roll.
pub fn run_reply(cmd: crate::commands::Command) -> (res: (Option<BotOutput>, Vec<String>))
    requires
        crate::commands::runnable(cmd),
    ensures
        exists|report: Option<Seq<char>>, readings: Seq<i64>|
            #[trigger] crate::commands::possible_output(cmd, report, readings) && res.1@.len()
                == readings.len() && (forall|i: int|
                0 <= i < readings.len() ==> (#[trigger] res.1@[i])@ == inverse_text(readings[i]))
                && match (res.0, report) {
                (Some(o), Some(r)) => is_text(o, "```Markdown\n"@ + r + "\n```"@),
                (None, None) => true,
                _ => false,
            },
{
    let ghost c = cmd;
    let (report, readings) = cmd.execute_logged();
    let mut lines: Vec<String> = Vec::new();
    let mut i: usize = 0;
    while i < readings.len()
        invariant
            i <= readings.len(),
            lines@.len() == i,
            forall|k: int| 0 <= k < i ==> (#[trigger] lines@[k])@ == inverse_text(readings@[k]),
        decreases readings.len() - i,
    {
        lines.push(inverse_line(readings[i]));
        i = i + 1;
    }
    let out = match report {
        Some(r) => Some(markdown_reply(r.as_str())),
        None => None,
    };
    assert(crate::commands::possible_output(c, crate::commands::opt_view(report), readings@));
    (out, lines)
}

/// The line that a Brigandine roll prints with its reversed reading.
pub open spec fn inverse_text(reading: i64) -> Seq<char> {
    "inverse: "@ + crate::text::int_text(reading as int)
}

/// Writes the line that a Brigandine roll prints with its reversed reading.
pub fn inverse_line(reading: i64) -> (line: String)
    ensures
        line@ == inverse_text(reading),
{
    let mut line = String::from_str("inverse: ");
    crate::text::push_int(&mut line, reading);
    line
}

/// What follows the lookup of a recalled command.
pub enum Recalled {
    /// Run the stored text as if it had just been typed.
    Rerun(String),
    /// Answer at once.
    Reply(BotOutput),
}

/// Decides what follows the lookup of a recalled command: the stored text is
/// run again when one was found; otherwise the author is told that nothing is
/// stored.
pub fn after_recall(found: Option<String>, realname: &str) -> (next: Recalled)
    ensures
        match found {
            Some(text) => next == Recalled::Rerun(text),
            None => next matches Recalled::Reply(out) && is_text(out, "No previous entry for "@ + realname@),
        },
{
    match found {
        Some(ancient) => Recalled::Rerun(ancient),
        None => Recalled::Reply(no_previous_entry(realname)),
    }
}

} // verus!
