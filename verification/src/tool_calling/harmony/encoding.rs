//! The Harmony encoding of `openai_harmony`: text to tokens, tokens to messages.
use crate::text::{chars_of, is_white_space, white_space};
use crate::tool_calling::harmony::classes::{
    is_maybe_letter, is_maybe_mark, is_maybe_sign, is_maybe_upper, may_be_letter, may_be_mark,
    may_be_sign, may_be_upper,
};
use openai_harmony::chat;
use vstd::prelude::*;

verus! {

/// A loaded encoding.
#[verifier::external_type_specification]
#[verifier::external_body]
pub struct ExHarmonyEncoding(openai_harmony::HarmonyEncoding);

/// An error without a type of its own.
#[verifier::external_type_specification]
#[verifier::external_body]
pub struct ExAnyhowError(anyhow::Error);

/// Who wrote a message.
#[derive(Clone, Copy, Debug, PartialEq, Eq, Structural)]
pub enum Role {
    /// The user.
    User,
    /// The model.
    Assistant,
    /// The system prompt.
    System,
    /// The developer prompt.
    Developer,
    /// A tool that was called.
    Tool,
}

/// A part of what a message says.
#[derive(Clone, Debug)]
pub enum Content {
    /// Text.
    Text(String),
    /// Instructions of the system.
    System,
    /// Instructions of the developer.
    Developer,
}

/// A message of a conversation.
#[derive(Clone, Debug)]
pub struct HarmonyMessage {
    /// Who wrote it.
    pub role: Role,
    /// The channel it was written on.
    pub channel: Option<String>,
    /// Whom it is meant for; a tool call is meant for the tool.
    pub recipient: Option<String>,
    /// What it says.
    pub content: Vec<Content>,
}

/// What a message holds. A part that is no text is `None`.
pub struct MessageView {
    /// Who wrote it.
    pub role: Role,
    /// The channel it was written on.
    pub channel: Option<Seq<char>>,
    /// Whom it is meant for.
    pub recipient: Option<Seq<char>>,
    /// The text of each part.
    pub content: Seq<Option<Seq<char>>>,
}

/// The text of a part, where it is text.
pub open spec fn content_text(c: Content) -> Option<Seq<char>> {
    match c {
        Content::Text(text) => Some(text@),
        _ => None,
    }
}

/// The characters of a text that may be absent.
pub open spec fn optional_text(t: Option<String>) -> Option<Seq<char>> {
    match t {
        Some(text) => Some(text@),
        None => None,
    }
}

impl View for HarmonyMessage {
    type V = MessageView;

    open spec fn view(&self) -> MessageView {
        MessageView {
            role: self.role,
            channel: optional_text(self.channel),
            recipient: optional_text(self.recipient),
            content: self.content@.map_values(|c: Content| content_text(c)),
        }
    }
}

/// What each message of a list holds.
pub open spec fn message_views(messages: Seq<HarmonyMessage>) -> Seq<MessageView> {
    messages.map_values(|m: HarmonyMessage| m@)
}

/// A number of characters that the tokenizer is sure to take in one piece. It splits
/// text by backtracking, with room for a million steps on one piece, and spends a
/// step on each character and a few on anything.
pub const LONGEST_RUN: usize = 999_900;

/// The kinds of characters that the tokenizer may take in runs.
pub enum RunKind {
    /// White space.
    White,
    /// What may be a letter or a mark.
    Letter,
    /// What may be neither white space nor a letter nor a number.
    Sign,
    /// Slashes and line breaks.
    Break,
}

/// A character is of a kind.
pub open spec fn of_kind(c: char, kind: RunKind) -> bool {
    match kind {
        RunKind::White => white_space(c),
        RunKind::Letter => may_be_letter(c),
        RunKind::Sign => may_be_sign(c),
        RunKind::Break => c == '/' || c == '\r' || c == '\n',
    }
}

/// How many characters of a kind stand at the end of `text` in a row.
pub open spec fn trailing_run(text: Seq<char>, kind: RunKind) -> nat
    decreases text.len(),
{
    if text.len() == 0 || !of_kind(text.last(), kind) {
        0
    } else {
        trailing_run(text.drop_last(), kind) + 1
    }
}

/// How many characters stand at the end of `text` in a row of which the first may be
/// a mark and the others may be upper-case letters.
pub open spec fn marked_run(text: Seq<char>) -> nat
    decreases text.len(),
{
    if text.len() == 0 {
        0
    } else if may_be_upper(text.last()) && marked_run(text.drop_last()) > 0 {
        marked_run(text.drop_last()) + 1
    } else if may_be_mark(text.last()) {
        1
    } else {
        0
    }
}

/// How many slashes and line breaks stand at the end of `text` in a row, together
/// with the signs before them.
pub open spec fn sign_run(text: Seq<char>) -> nat {
    let breaks = trailing_run(text, RunKind::Break);
    breaks + trailing_run(text.take(text.len() - breaks), RunKind::Sign)
}

/// What stands at the end of `text` is no piece that is too long for the tokenizer.
/// Signs are taken with the slashes and line breaks behind them. Upper-case letters
/// are gone through twice where a mark stands before them.
pub open spec fn end_fits(text: Seq<char>) -> bool {
    &&& trailing_run(text, RunKind::White) <= LONGEST_RUN
    &&& trailing_run(text, RunKind::Letter) <= LONGEST_RUN
    &&& 2 * marked_run(text) <= LONGEST_RUN
    &&& sign_run(text) <= LONGEST_RUN
}

/// The text is one that the tokenizer is sure to take: no piece of it is too long.
pub open spec fn tokenizable(text: Seq<char>) -> bool {
    forall|i: int| 0 <= i <= text.len() ==> #[trigger] end_fits(text.take(i))
}

/// Whether the text is one that the tokenizer is sure to take.
pub fn is_tokenizable(text: &str) -> (b: bool)
    ensures
        b == tokenizable(text@),
{
    let chars = chars_of(text);
    let mut white: usize = 0;
    let mut letters: usize = 0;
    let mut marked: usize = 0;
    let mut signs: usize = 0;
    let mut breaks: usize = 0;
    let mut before: usize = 0;
    let mut i: usize = 0;
    assert(chars@.take(0) =~= Seq::empty());
    while i < chars.len()
        invariant
            i <= chars.len(),
            chars@ == text@,
            white == trailing_run(chars@.take(i as int), RunKind::White),
            letters == trailing_run(chars@.take(i as int), RunKind::Letter),
            marked == marked_run(chars@.take(i as int)),
            signs == trailing_run(chars@.take(i as int), RunKind::Sign),
            breaks == trailing_run(chars@.take(i as int), RunKind::Break),
            breaks <= i,
            signs <= i,
            before == trailing_run(chars@.take(i - breaks), RunKind::Sign),
            end_fits(chars@.take(i as int)),
            forall|k: int| 0 <= k <= i ==> #[trigger] end_fits(chars@.take(k)),
        decreases chars.len() - i,
    {
        let c = chars[i];
        let ghost past = chars@.take(i as int);
        let ghost now = chars@.take(i + 1);
        proof {
            assert(now.drop_last() =~= past);
            assert(now.last() == c);
            assert(past.take(past.len() - breaks) =~= chars@.take(i - breaks));
        }
        white = if is_white_space(c) {
            white + 1
        } else {
            0
        };
        letters = if is_maybe_letter(c) {
            letters + 1
        } else {
            0
        };
        marked = if marked > 0 && is_maybe_upper(c) {
            marked + 1
        } else if is_maybe_mark(c) {
            1
        } else {
            0
        };
        signs = if is_maybe_sign(c) {
            signs + 1
        } else {
            0
        };
        if c == '/' || c == '\r' || c == '\n' {
            breaks = breaks + 1;
        } else {
            breaks = 0;
            before = signs;
        }
        i = i + 1;
        assert(white == trailing_run(now, RunKind::White));
        assert(letters == trailing_run(now, RunKind::Letter));
        assert(marked == marked_run(now));
        assert(signs == trailing_run(now, RunKind::Sign));
        assert(breaks == trailing_run(now, RunKind::Break));
        assert(now.take(now.len() - breaks) =~= chars@.take(i - breaks));
        if white > LONGEST_RUN || letters > LONGEST_RUN || marked > LONGEST_RUN / 2 || before
            > LONGEST_RUN || breaks > LONGEST_RUN - before {
            assert(!end_fits(chars@.take(i as int)));
            return false;
        }
        assert(end_fits(chars@.take(i as int)));
        assert forall|k: int| 0 <= k <= i implies #[trigger] end_fits(chars@.take(k)) by {
            if k < i {
                assert(k <= i - 1);
            }
        }
    }
    true
}

/// The tokens that the tokenizer of an encoding splits a text into.
pub uninterp spec fn harmony_tokens(
    encoding: openai_harmony::HarmonyEncoding,
    text: Seq<char>,
) -> Seq<u32>;

/// The messages that an encoding reads out of the tokens that a model wrote in
/// the role of the assistant, where it accepts them.
pub uninterp spec fn harmony_messages(
    encoding: openai_harmony::HarmonyEncoding,
    tokens: Seq<u32>,
) -> Option<Seq<MessageView>>;

/// Calls `encode_with_special_tokens` of the encoding's tokenizer. The tokens
/// depend on the encoding and the text alone. The tokenizer panics on runs of
/// characters that exhaust its backtracking; a text that is sure not to hold one is
/// asked for.
#[verifier::external_body]
pub(crate) fn encode(encoding: &openai_harmony::HarmonyEncoding, text: &str) -> (tokens: Vec<u32>)
    requires
        tokenizable(text@),
    ensures
        tokens@ == harmony_tokens(*encoding, text@),
{
    encoding.tokenizer().encode_with_special_tokens(text)
}

/// Calls `parse_messages_from_completion_tokens` of the encoding, for the role of
/// the assistant. Whether the tokens are accepted, and the messages, depend on
/// the encoding and the tokens alone. Every message holds one part, which is
/// text. The tokens are those of some text: others may decode to a text on which
/// the tokenizer panics.
#[verifier::external_body]
pub(crate) fn parse_messages(
    encoding: &openai_harmony::HarmonyEncoding,
    tokens: Vec<u32>,
) -> (r: Result<Vec<HarmonyMessage>, anyhow::Error>)
    requires
        exists|text: Seq<char>|
            tokenizable(text) && tokens@ == #[trigger] harmony_tokens(*encoding, text),
    ensures
        (match r {
            Ok(messages) => Some(message_views(messages@)),
            Err(_) => None,
        }) == harmony_messages(*encoding, tokens@),
        r matches Ok(messages) ==> forall|i: int|
            0 <= i < messages@.len() ==> (#[trigger] messages@[i]).content@.len() == 1
                && messages@[i].content@[0] is Text,
{
    let messages = encoding.parse_messages_from_completion_tokens(tokens, Some(chat::Role::Assistant))?;
    Ok(messages.into_iter().map(|m| HarmonyMessage {
        role: match m.author.role {
            chat::Role::User => Role::User,
            chat::Role::Assistant => Role::Assistant,
            chat::Role::System => Role::System,
            chat::Role::Developer => Role::Developer,
            chat::Role::Tool => Role::Tool,
        },
        channel: m.channel, recipient: m.recipient,
        content: m.content.into_iter().map(|c| match c {
            chat::Content::Text(t) => Content::Text(t.text),
            chat::Content::SystemContent(_) => Content::System,
            chat::Content::DeveloperContent(_) => Content::Developer,
        }).collect() }).collect())
}

/// A run at the end of a text is as long as it can be: its characters are of the kind,
/// and the one before it is not.
proof fn lemma_trailing_run(text: Seq<char>, kind: RunKind)
    ensures
        trailing_run(text, kind) <= text.len(),
        forall|i: int|
            text.len() - trailing_run(text, kind) <= i < text.len() ==> of_kind(
                #[trigger] text[i],
                kind,
            ),
        trailing_run(text, kind) < text.len() ==> !of_kind(
            text[text.len() - trailing_run(text, kind) - 1],
            kind,
        ),
    decreases text.len(),
{
    if text.len() > 0 && of_kind(text.last(), kind) {
        let before = text.drop_last();
        lemma_trailing_run(before, kind);
        assert forall|i: int|
            text.len() - trailing_run(text, kind) <= i < text.len() implies of_kind(
            #[trigger] text[i],
            kind,
        ) by {
            if i < before.len() {
                assert(before[i] == text[i]);
            }
        }
    }
}

/// A run behind a mark begins with the mark, and upper-case letters follow.
proof fn lemma_marked_run(text: Seq<char>)
    ensures
        marked_run(text) <= text.len(),
        marked_run(text) > 0 ==> may_be_mark(text[text.len() - marked_run(text)]),
        forall|i: int|
            text.len() - marked_run(text) < i < text.len() ==> may_be_upper(#[trigger] text[i]),
    decreases text.len(),
{
    if text.len() > 0 {
        let before = text.drop_last();
        lemma_marked_run(before);
        assert forall|i: int|
            text.len() - marked_run(text) < i < text.len() implies may_be_upper(
            #[trigger] text[i],
        ) by {
            if i < before.len() {
                assert(before[i] == text[i]);
            }
        }
    }
}

/// A mark with upper-case letters behind it is a run that is at least so long.
proof fn lemma_marked_run_reaches(text: Seq<char>, from: int)
    requires
        0 <= from < text.len(),
        may_be_mark(text[from]),
        forall|i: int| from < i < text.len() ==> may_be_upper(#[trigger] text[i]),
    ensures
        marked_run(text) >= text.len() - from,
    decreases text.len(),
{
    if from < text.len() - 1 {
        let before = text.drop_last();
        assert forall|i: int| from < i < before.len() implies may_be_upper(
            #[trigger] before[i],
        ) by {
            assert(before[i] == text[i]);
        }
        lemma_marked_run_reaches(before, from);
        assert(may_be_upper(text[text.len() - 1]));
    }
}

/// A text that is not long is taken, whatever it holds.
pub proof fn short_texts_are_taken(text: Seq<char>)
    requires
        text.len() <= 499_950,
    ensures
        tokenizable(text),
{
    assert forall|i: int| 0 <= i <= text.len() implies #[trigger] end_fits(text.take(i)) by {
        let t = text.take(i);
        lemma_trailing_run(t, RunKind::White);
        lemma_trailing_run(t, RunKind::Letter);
        lemma_trailing_run(t, RunKind::Break);
        lemma_trailing_run(t.take(t.len() - trailing_run(t, RunKind::Break)), RunKind::Sign);
        lemma_marked_run(t);
    }
}

/// A slash or a line break.
pub open spec fn slash_or_break(c: char) -> bool {
    c == '/' || c == '\r' || c == '\n'
}

/// The part of a text between two places is white space, or letters, or signs up to `at`
/// with slashes and line breaks behind them: a piece that the tokenizer may take as one.
pub open spec fn plain_piece(text: Seq<char>, from: int, at: int, to: int) -> bool {
    ||| forall|i: int| from <= i < to ==> white_space(#[trigger] text[i])
    ||| forall|i: int| from <= i < to ==> may_be_letter(#[trigger] text[i])
    ||| {
        &&& forall|i: int| from <= i < at ==> may_be_sign(#[trigger] text[i])
        &&& forall|i: int| at <= i < to ==> slash_or_break(#[trigger] text[i])
    }
}

/// How many characters the tokenizer goes through on a piece; those of a mark with
/// upper-case letters behind it twice.
pub open spec fn piece_cost(text: Seq<char>, from: int, at: int, to: int) -> int {
    if marked_piece(text, from, to) {
        2 * (to - from)
    } else if plain_piece(text, from, at, to) {
        to - from
    } else {
        0
    }
}

/// A mark with upper-case letters behind it stands between two places of a text.
pub open spec fn marked_piece(text: Seq<char>, from: int, to: int) -> bool {
    &&& from < to
    &&& may_be_mark(text[from])
    &&& forall|i: int| from < i < to ==> may_be_upper(#[trigger] text[i])
}

/// A text is refused as soon as it holds a piece that costs more than 999,900 steps.
pub proof fn long_pieces_are_refused(text: Seq<char>, from: int, at: int, to: int)
    requires
        0 <= from <= at <= to <= text.len(),
        piece_cost(text, from, at, to) > 999_900,
    ensures
        !tokenizable(text),
{
    let t = text.take(to);
    if tokenizable(text) {
        assert(end_fits(text.take(to)));
        lemma_trailing_run(t, RunKind::White);
        lemma_trailing_run(t, RunKind::Letter);
        lemma_trailing_run(t, RunKind::Break);
        let breaks = trailing_run(t, RunKind::Break) as int;
        let u = t.take(to - breaks);
        lemma_trailing_run(u, RunKind::Sign);
        let signs = trailing_run(u, RunKind::Sign) as int;
        if marked_piece(text, from, to) {
            assert forall|i: int| from < i < t.len() implies may_be_upper(#[trigger] t[i]) by {
                assert(t[i] == text[i]);
            }
            lemma_marked_run_reaches(t, from);
        } else if forall|i: int| from <= i < to ==> white_space(#[trigger] text[i]) {
            let n = trailing_run(t, RunKind::White) as int;
            if n < to - from {
                assert(white_space(text[to - n - 1]));
            }
        } else if forall|i: int| from <= i < to ==> may_be_letter(#[trigger] text[i]) {
            let n = trailing_run(t, RunKind::Letter) as int;
            if n < to - from {
                assert(may_be_letter(text[to - n - 1]));
            }
        } else {
            if breaks < to - at {
                assert(slash_or_break(text[to - breaks - 1]));
            }
            if signs + breaks < to - from {
                assert(may_be_sign(text[to - breaks - signs - 1]));
            }
        }
    }
}

/// A text is taken as long as it holds no piece that costs more than 999,900 steps.
pub proof fn texts_without_long_pieces_are_taken(text: Seq<char>)
    requires
        forall|from: int, at: int, to: int|
            0 <= from <= at <= to <= text.len() ==> #[trigger] piece_cost(text, from, at, to)
                <= 999_900,
    ensures
        tokenizable(text),
{
    assert forall|k: int| 0 <= k <= text.len() implies #[trigger] end_fits(text.take(k)) by {
        let t = text.take(k);
        lemma_trailing_run(t, RunKind::White);
        lemma_trailing_run(t, RunKind::Letter);
        lemma_trailing_run(t, RunKind::Break);
        let white = trailing_run(t, RunKind::White) as int;
        assert forall|i: int| k - white <= i < k implies white_space(#[trigger] text[i]) by {
            assert(of_kind(t[i], RunKind::White));
        }
        assert(piece_cost(text, k - white, k, k) <= 999_900);
        let letters = trailing_run(t, RunKind::Letter) as int;
        assert forall|i: int| k - letters <= i < k implies may_be_letter(#[trigger] text[i]) by {
            assert(of_kind(t[i], RunKind::Letter));
        }
        assert(piece_cost(text, k - letters, k, k) <= 999_900);
        let breaks = trailing_run(t, RunKind::Break) as int;
        let u = t.take(k - breaks);
        lemma_trailing_run(u, RunKind::Sign);
        let signs = trailing_run(u, RunKind::Sign) as int;
        let at = k - breaks;
        assert forall|i: int| at <= i < k implies slash_or_break(#[trigger] text[i]) by {
            assert(of_kind(t[i], RunKind::Break));
        }
        assert forall|i: int| at - signs <= i < at implies may_be_sign(#[trigger] text[i]) by {
            assert(of_kind(u[i], RunKind::Sign));
        }
        assert(piece_cost(text, at - signs, at, k) <= 999_900);
        lemma_marked_run(t);
        let marked = marked_run(t) as int;
        if marked > 0 {
            assert forall|i: int| k - marked < i < k implies may_be_upper(#[trigger] text[i]) by {
                assert(may_be_upper(t[i]));
            }
            assert(marked_piece(text, k - marked, k));
            assert(piece_cost(text, k - marked, k, k) <= 999_900);
        }
    }
}

/// On ASCII the classes of characters are what they are named after: letters, signs
/// that are neither white space nor letters nor digits, upper-case letters, and no
/// marks.
pub proof fn ascii_classes(c: char)
    requires
        (c as u32) < 0x80,
    ensures
        may_be_letter(c) <==> 'a' <= c <= 'z' || 'A' <= c <= 'Z',
        may_be_upper(c) <==> 'A' <= c <= 'Z',
        may_be_sign(c) <==> !white_space(c) && !('a' <= c <= 'z' || 'A' <= c <= 'Z' || '0' <= c
            <= '9'),
        !may_be_mark(c),
{
}

} // verus!
