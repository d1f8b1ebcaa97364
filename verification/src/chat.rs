//! What the program does with what it is told.
use crate::text;
use crate::text::{chars_of, text_of};
use vstd::prelude::*;

verus! {

/// How the program runs.
pub enum Mode {
    /// It holds a conversation.
    Interactive,
    /// It answers one prompt.
    Single(String),
    /// It was told neither.
    Unclear,
}

/// Chooses how to run: a conversation comes before a prompt.
pub fn choose_mode(interactive: bool, prompt: Option<String>) -> (r: Mode)
    ensures
        interactive ==> r is Interactive,
        !interactive && prompt is Some ==> r == Mode::Single(prompt->0),
        !interactive && prompt is None ==> r is Unclear,
{
    if interactive {
        Mode::Interactive
    } else {
        match prompt {
            Some(prompt) => Mode::Single(prompt),
            None => Mode::Unclear,
        }
    }
}

/// What comes of reading a line.
pub enum Input {
    /// A line.
    Line(String),
    /// There are no more lines.
    End,
    /// Reading failed.
    Failed,
}

/// What a conversation does next.
pub enum Action {
    /// It reads another line.
    Continue,
    /// It ends.
    Quit,
    /// It forgets what was said.
    Reset,
    /// It answers a prompt.
    Generate(String),
}

/// The place of the first character from `from` on that is no whitespace.
pub open spec fn first_visible(s: Seq<char>, from: int) -> int
    decreases s.len() - from,
{
    if from < s.len() && text::char_is_whitespace(s[from]) {
        first_visible(s, from + 1)
    } else {
        from
    }
}

/// `s` without the whitespace at its start.
pub open spec fn trimmed_start(s: Seq<char>) -> Seq<char> {
    s.skip(first_visible(s, 0))
}

/// `s` without the whitespace at its end.
pub open spec fn trimmed_end(s: Seq<char>) -> Seq<char>
    decreases s.len(),
{
    if s.len() > 0 && text::char_is_whitespace(s.last()) {
        trimmed_end(s.drop_last())
    } else {
        s
    }
}

/// `s` without the whitespace at its start and its end.
pub open spec fn trimmed(s: Seq<char>) -> Seq<char> {
    trimmed_end(trimmed_start(s))
}

/// What a conversation does with a line: nothing with an empty one, and the words
/// `quit`, `exit` and `/reset` are commands.
pub open spec fn is_answer_to(action: Action, line: Seq<char>) -> bool {
    let said = trimmed(line);
    if said.len() == 0 {
        action is Continue
    } else if said == "quit"@ || said == "exit"@ {
        action is Quit
    } else if said == "/reset"@ {
        action is Reset
    } else {
        action matches Action::Generate(prompt) && prompt@ == said
    }
}

proof fn lemma_first_visible(s: Seq<char>, from: int)
    requires
        0 <= from <= s.len(),
    ensures
        from <= first_visible(s, from) <= s.len(),
    decreases s.len() - from,
{
    if from < s.len() && text::char_is_whitespace(s[from]) {
        lemma_first_visible(s, from + 1);
    }
}

/// Takes the whitespace off both ends of a text.
pub fn trim(line: &str) -> (r: String)
    ensures
        r@ == trimmed(line@),
{
    let chars = chars_of(line);
    let ghost s = chars@;
    let n: usize = chars.len();
    let mut from: usize = 0;
    while from < n && chars[from].is_whitespace()
        invariant
            s == chars@,
            n == s.len(),
            from <= n,
            first_visible(s, 0) == first_visible(s, from as int),
        decreases n - from,
    {
        from = from + 1;
    }
    let ghost rest = s.skip(from as int);
    let mut to: usize = n;
    assert(s.subrange(from as int, to as int) =~= rest);
    while to > from && chars[to - 1].is_whitespace()
        invariant
            s == chars@,
            n == s.len(),
            from <= to <= n,
            trimmed_end(rest) == trimmed_end(s.subrange(from as int, to as int)),
        decreases to - from,
    {
        assert(s.subrange(from as int, to as int).drop_last() =~= s.subrange(
            from as int,
            to - 1,
        ));
        assert(s.subrange(from as int, to as int).last() == s[to - 1]);
        to = to - 1;
    }
    assert(to > from ==> s.subrange(from as int, to as int).last() == s[to - 1]);
    text_of(chars.as_slice(), from, to)
}

/// Decides what a conversation does next.
pub fn next_action(input: Input) -> (r: Action)
    ensures
        match input {
            Input::Line(line) => is_answer_to(r, line@),
            Input::End => r is Quit,
            Input::Failed => r is Quit,
        },
{
    match input {
        Input::Line(line) => {
            let said = trim(line.as_str());
            if said.as_str().is_empty() {
                Action::Continue
            } else if said == "quit".to_owned() || said == "exit".to_owned() {
                Action::Quit
            } else if said == "/reset".to_owned() {
                Action::Reset
            } else {
                Action::Generate(said)
            }
        },
        Input::End => Action::Quit,
        Input::Failed => Action::Quit,
    }
}

/// Whether every character of `s` is whitespace.
pub open spec fn is_blank(s: Seq<char>) -> bool {
    forall|i: int| 0 <= i < s.len() ==> text::char_is_whitespace(#[trigger] s[i])
}

/// Whether `s` neither starts nor ends with whitespace.
pub open spec fn is_tight(s: Seq<char>) -> bool {
    s.len() > 0 ==> !text::char_is_whitespace(s.first()) && !text::char_is_whitespace(s.last())
}

proof fn lemma_visible_after_blank(before: Seq<char>, rest: Seq<char>, from: int)
    requires
        is_blank(before),
        0 <= from <= before.len(),
        rest.len() > 0 ==> !text::char_is_whitespace(rest.first()),
    ensures
        first_visible(before + rest, from) == before.len(),
    decreases before.len() - from,
{
    let s = before + rest;
    if from < before.len() {
        assert(s[from] == before[from]);
        lemma_visible_after_blank(before, rest, from + 1);
    } else if rest.len() > 0 {
        assert(s[from] == rest.first());
    }
}

proof fn lemma_trimmed_end(said: Seq<char>, after: Seq<char>)
    requires
        is_blank(after),
        said.len() > 0 ==> !text::char_is_whitespace(said.last()),
    ensures
        trimmed_end(said + after) == said,
    decreases after.len(),
{
    let s = said + after;
    if after.len() > 0 {
        assert(s.last() == after[after.len() - 1]);
        assert(s.drop_last() =~= said + after.drop_last());
        assert(is_blank(after.drop_last())) by {
            assert forall|i: int| 0 <= i < after.len() - 1 implies text::char_is_whitespace(
                #[trigger] after.drop_last()[i],
            ) by {
                assert(after.drop_last()[i] == after[i]);
            }
        }
        lemma_trimmed_end(said, after.drop_last());
    } else {
        assert(s =~= said);
        if said.len() > 0 {
            assert(s.last() == said.last());
        }
    }
}

proof fn lemma_blank_visible(s: Seq<char>, from: int)
    requires
        is_blank(s),
        0 <= from <= s.len(),
    ensures
        first_visible(s, from) == s.len(),
    decreases s.len() - from,
{
    if from < s.len() {
        assert(text::char_is_whitespace(s[from]));
        lemma_blank_visible(s, from + 1);
    }
}

/// Trimming takes the whitespace around a text off, all of it and nothing else.
pub proof fn trimming_takes_whitespace_off(before: Seq<char>, said: Seq<char>, after: Seq<char>)
    requires
        is_blank(before),
        is_blank(after),
        is_tight(said),
    ensures
        trimmed(before + said + after) == said,
{
    let s = before + said + after;
    if said.len() == 0 {
        assert(is_blank(s)) by {
            assert forall|i: int| 0 <= i < s.len() implies text::char_is_whitespace(
                #[trigger] s[i],
            ) by {
                if i < before.len() {
                    assert(s[i] == before[i]);
                } else {
                    assert(s[i] == after[i - before.len()]);
                }
            }
        }
        lemma_blank_visible(s, 0);
        assert(s.skip(s.len() as int) =~= said);
    } else {
        let rest = said + after;
        assert(s =~= before + rest);
        assert(rest.first() == said.first());
        lemma_visible_after_blank(before, rest, 0);
        assert(s.skip(before.len() as int) =~= rest);
        lemma_trimmed_end(said, after);
    }
}

/// A line is answered by what is said in it, whatever whitespace is around that: lines that
/// say the same get the same answer, a blank line gets none, `quit` and `exit` end the
/// conversation, `/reset` starts it over, and anything else is a prompt.
pub proof fn answers_go_by_what_is_said(
    action: Action,
    before: Seq<char>,
    said: Seq<char>,
    after: Seq<char>,
)
    requires
        is_blank(before),
        is_blank(after),
        is_tight(said),
    ensures
        is_answer_to(action, before + said + after) == is_answer_to(action, said),
        said.len() == 0 ==> is_answer_to(action, said) == (action is Continue),
        said == "quit"@ || said == "exit"@ ==> is_answer_to(action, said) == (action is Quit),
        said == "/reset"@ ==> is_answer_to(action, said) == (action is Reset),
        said.len() > 0 && said != "quit"@ && said != "exit"@ && said != "/reset"@
            ==> is_answer_to(action, said) == (action matches Action::Generate(prompt)
            && prompt@ == said),
{
    reveal_strlit("quit");
    reveal_strlit("exit");
    reveal_strlit("/reset");
    let none = Seq::<char>::empty();
    trimming_takes_whitespace_off(before, said, after);
    trimming_takes_whitespace_off(none, said, none);
    assert(none + said + none =~= said);
    assert("/reset"@[0] != "quit"@[0] && "/reset"@[0] != "exit"@[0]);
}

} // verus!
