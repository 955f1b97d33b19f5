//! The options of a concatenation and the rewriting of lines under them.
//!
//! Lines come in without their line ends and go out the same way. Numbering
//! and the squeezing of blank lines carry over from one line to the next, and
//! from one input to the next, in a [`LineState`].

use vstd::prelude::*;
use vstd::string::StringExecFns;
use crate::text::decimal;
use crate::text::decimal_string;
use crate::text::pad_left;
use crate::text::pad_start;

verus! {

/// The options of a concatenation.
#[derive(Debug)]
pub struct Args {
    /// The inputs, in order; none stands for the standard input.
    pub files: Vec<String>,
    /// Stands for `show_nonprinting`, `show_ends` and `show_tabs` together.
    pub show_all: bool,
    /// Number the lines that are not empty.
    pub number_nonblank: bool,
    /// Stands for `show_nonprinting` and `show_ends` together.
    pub e_flag: bool,
    /// Close every line with a `$`.
    pub show_ends: bool,
    /// Number the lines.
    pub number: bool,
    /// Let only one of a run of empty lines through.
    pub squeeze_blank: bool,
    /// Stands for `show_nonprinting` and `show_tabs` together.
    pub t_flag: bool,
    /// Show a tab as `^I`.
    pub show_tabs: bool,
    /// Without effect.
    pub u_flag: bool,
    /// Show control characters in caret notation.
    pub show_nonprinting: bool,
}

/// What is carried from line to line.
#[derive(Clone, Copy, Debug, PartialEq, Eq, Structural)]
pub struct LineState {
    /// The number that the next numbered line gets.
    pub line_number: u64,
    /// Whether the last line that was looked at and not squeezed was empty.
    pub prev_line_empty: bool,
}

/// `text` with each character replaced by what `form` gives for it.
pub open spec fn expanded(text: Seq<char>, form: spec_fn(char) -> Seq<char>) -> Seq<char>
    decreases text.len(),
{
    if text.len() == 0 {
        seq![]
    } else {
        expanded(text.drop_last(), form) + form(text.last())
    }
}

/// The caret notation of one character: a control character below the
/// blank, tab and line feed left aside, becomes a caret and the character 64
/// places up; the delete character becomes `^?`; the control characters from
/// U+0080 to U+009F are dropped; every other character stays.
pub open spec fn caret_form(c: char) -> Seq<char> {
    let code = c as u32;
    if code < 0x20 && code != 0x09 && code != 0x0A {
        seq!['^', ((code + 0x40) as u8) as char]
    } else if code == 0x7F {
        seq!['^', '?']
    } else if 0x80 <= code <= 0x9F {
        seq![]
    } else {
        seq![c]
    }
}

/// `input` with its control characters in caret notation.
pub open spec fn nonprinting_shown(input: Seq<char>) -> Seq<char> {
    expanded(input, |c: char| caret_form(c))
}

/// What a listing with visible tabs shows for one character.
pub open spec fn tab_form(c: char) -> Seq<char> {
    if c == '\t' {
        seq!['^', 'I']
    } else {
        seq![c]
    }
}

/// `input` with each tab shown as `^I`.
pub open spec fn tabs_shown(input: Seq<char>) -> Seq<char> {
    expanded(input, |c: char| tab_form(c))
}

impl Args {
    /// The options with the combined ones spelled out: `show_all`, `e_flag`
    /// and `t_flag` switch on what they stand for, and numbering the
    /// non-empty lines switches numbering on.
    pub open spec fn combined(self) -> Args {
        Args {
            show_nonprinting: self.show_nonprinting || self.show_all || self.e_flag || self.t_flag,
            show_ends: self.show_ends || self.show_all || self.e_flag,
            show_tabs: self.show_tabs || self.show_all || self.t_flag,
            number: self.number || self.number_nonblank,
            ..self
        }
    }

    /// The inputs to read: the files, or `-` for the standard input where
    /// there are none.
    pub open spec fn inputs(self) -> Seq<Seq<char>> {
        if self.files.len() == 0 {
            seq!["-"@]
        } else {
            self.files.deep_view()
        }
    }

    /// Whether `line` is squeezed away: it is empty and follows an empty line.
    pub open spec fn squeezes(self, state: LineState, line: Seq<char>) -> bool {
        self.squeeze_blank && line.len() == 0 && state.prev_line_empty
    }

    /// Whether `line` gets a number.
    pub open spec fn numbers(self, line: Seq<char>) -> bool {
        self.number && !(self.number_nonblank && line.len() == 0)
    }

    /// What stands before `line`: its number, right-aligned in six columns
    /// and followed by two blanks, or nothing.
    pub open spec fn prefix(self, state: LineState, line: Seq<char>) -> Seq<char> {
        if self.numbers(line) {
            pad_left(decimal(state.line_number as nat), 6) + seq![' ', ' ']
        } else {
            seq![]
        }
    }

    /// `line` as it is shown: control characters first, then tabs, then the
    /// mark at the end.
    pub open spec fn body(self, line: Seq<char>) -> Seq<char> {
        let shown = if self.show_nonprinting {
            nonprinting_shown(line)
        } else {
            line
        };
        let tabbed = if self.show_tabs {
            tabs_shown(shown)
        } else {
            shown
        };
        if self.show_ends {
            tabbed.push('$')
        } else {
            tabbed
        }
    }

    /// What is printed for `line`: nothing where it is squeezed away.
    pub open spec fn formatted(self, state: LineState, line: Seq<char>) -> Option<Seq<char>> {
        if self.squeezes(state, line) {
            None
        } else {
            Some(self.prefix(state, line) + self.body(line))
        }
    }

    /// The state behind `line`.
    pub open spec fn state_after(self, state: LineState, line: Seq<char>) -> LineState {
        if self.squeezes(state, line) {
            state
        } else {
            LineState {
                line_number: if self.numbers(line) {
                    (state.line_number + 1) as u64
                } else {
                    state.line_number
                },
                prev_line_empty: line.len() == 0,
            }
        }
    }

    /// The state behind all of `lines`.
    pub open spec fn state_after_all(self, state: LineState, lines: Seq<Seq<char>>) -> LineState
        decreases lines.len(),
    {
        if lines.len() == 0 {
            state
        } else {
            self.state_after(self.state_after_all(state, lines.drop_last()), lines.last())
        }
    }

    /// What is printed for `lines`, in order.
    pub open spec fn formatted_all(self, state: LineState, lines: Seq<Seq<char>>) -> Seq<
        Seq<char>,
    >
        decreases lines.len(),
    {
        if lines.len() == 0 {
            seq![]
        } else {
            let before = self.formatted_all(state, lines.drop_last());
            match self.formatted(self.state_after_all(state, lines.drop_last()), lines.last()) {
                Some(text) => before.push(text),
                None => before,
            }
        }
    }

    /// What a run prints for its inputs, each given as its lines: the lines
    /// of all inputs in order, rewritten with one state that starts before
    /// the first line of the first input.
    pub open spec fn printed(self, inputs: Seq<Seq<Seq<char>>>) -> Seq<Seq<char>> {
        self.formatted_all(LineState::start(), inputs.flatten())
    }

    /// Rewriting two runs of lines one after the other, with the state
    /// carried over, is rewriting them as one.
    pub proof fn lemma_formatting_carries_over(
        self,
        state: LineState,
        first: Seq<Seq<char>>,
        second: Seq<Seq<char>>,
    )
        ensures
            self.state_after_all(state, first + second) == self.state_after_all(
                self.state_after_all(state, first),
                second,
            ),
            self.formatted_all(state, first + second) == self.formatted_all(state, first)
                + self.formatted_all(self.state_after_all(state, first), second),
        decreases second.len(),
    {
        if second.len() == 0 {
            assert(first + second =~= first);
            assert(self.formatted_all(state, first) + Seq::<Seq<char>>::empty()
                =~= self.formatted_all(state, first));
        } else {
            self.lemma_formatting_carries_over(state, first, second.drop_last());
            assert((first + second).drop_last() =~= first + second.drop_last());
            assert((first + second).last() == second.last());
            let middle = self.state_after_all(state, first);
            let head = self.formatted_all(state, first);
            let tail = self.formatted_all(middle, second.drop_last());
            match self.formatted(self.state_after_all(middle, second.drop_last()), second.last()) {
                Some(text) => {
                    assert((head + tail).push(text) =~= head + tail.push(text));
                },
                None => {},
            }
        }
    }

    /// Spelling out the combined options a second time changes nothing.
    pub proof fn lemma_combining_settles(self)
        ensures
            self.combined().combined() == self.combined(),
    {
    }

    /// Spells out the combined options: `show_all` switches on
    /// `show_nonprinting`, `show_ends` and `show_tabs`; `e_flag` the first
    /// two; `t_flag` the first and the last; and `number_nonblank` switches
    /// on `number`.
    pub fn process_combined_flags(&mut self)
        ensures
            *final(self) == old(self).combined(),
    {
        if self.show_all {
            self.show_nonprinting = true;
            self.show_ends = true;
            self.show_tabs = true;
        }
        if self.e_flag {
            self.show_nonprinting = true;
            self.show_ends = true;
        }
        if self.t_flag {
            self.show_nonprinting = true;
            self.show_tabs = true;
        }
        if self.number_nonblank {
            self.number = true;
        }
    }

    /// The inputs to read: the files, or `-` for the standard input where
    /// there are none.
    pub fn get_files(&self) -> (files: Vec<String>)
        ensures
            files.deep_view() == self.inputs(),
    {
        let mut files: Vec<String> = Vec::new();
        if self.files.len() == 0 {
            files.push(String::from_str("-"));
            assert(files.deep_view() =~= seq!["-"@]);
        } else {
            let mut i: usize = 0;
            while i < self.files.len()
                invariant
                    i <= self.files.len(),
                    files.deep_view() == self.files.deep_view().take(i as int),
                decreases self.files.len() - i,
            {
                let ghost before = files.deep_view();
                files.push(self.files[i].clone());
                i = i + 1;
                assert(files.deep_view() =~= before.push(self.files[i - 1]@));
                assert(files.deep_view() =~= self.files.deep_view().take(i as int));
            }
            assert(self.files.deep_view().take(i as int) =~= self.files.deep_view());
        }
        files
    }

    /// Rewrites one line under the options and moves the state on. The
    /// result is `None` where the line is squeezed away.
    pub fn format_line(&self, state: &mut LineState, line: &str) -> (text: Option<String>)
        requires
            old(state).line_number < u64::MAX,
        ensures
            text.is_some() == self.formatted(*old(state), line@).is_some(),
            text matches Some(t) ==> Some(t@) == self.formatted(*old(state), line@),
            *final(state) == self.state_after(*old(state), line@),
    {
        let empty = line.is_empty();
        if self.squeeze_blank && empty && state.prev_line_empty {
            return None;
        }
        state.prev_line_empty = empty;
        let mut text = String::new();
        if self.number && !(self.number_nonblank && empty) {
            let number = decimal_string(state.line_number as u128);
            text.append(pad_start(number.as_str(), 6).as_str());
            text.push(' ');
            text.push(' ');
            state.line_number = state.line_number + 1;
        }
        assert(text@ =~= self.prefix(*old(state), line@));
        let shown = if self.show_nonprinting {
            show_nonprinting_chars(line)
        } else {
            line.to_owned()
        };
        let mut tabbed = if self.show_tabs {
            show_tabs(shown.as_str())
        } else {
            shown
        };
        if self.show_ends {
            tabbed.push('$');
        }
        text.append(tabbed.as_str());
        Some(text)
    }

    /// Rewrites the lines of one input under the options, in order, and
    /// moves the state on.
    pub fn format_lines(&self, state: &mut LineState, lines: &Vec<String>) -> (texts: Vec<String>)
        requires
            old(state).line_number + lines.len() <= u64::MAX,
        ensures
            texts.deep_view() == self.formatted_all(*old(state), lines.deep_view()),
            *final(state) == self.state_after_all(*old(state), lines.deep_view()),
            final(state).line_number <= old(state).line_number + lines.len(),
    {
        let mut texts: Vec<String> = Vec::new();
        let mut i: usize = 0;
        assert(lines.deep_view().take(0) =~= Seq::<Seq<char>>::empty());
        assert(texts.deep_view() =~= Seq::<Seq<char>>::empty());
        while i < lines.len()
            invariant
                i <= lines.len(),
                old(state).line_number + lines.len() <= u64::MAX,
                state.line_number <= old(state).line_number + i,
                texts.deep_view() == self.formatted_all(
                    *old(state),
                    lines.deep_view().take(i as int),
                ),
                *state == self.state_after_all(*old(state), lines.deep_view().take(i as int)),
            decreases lines.len() - i,
        {
            let ghost before = texts.deep_view();
            proof {
                let now = lines.deep_view().take(i + 1);
                assert(now.drop_last() =~= lines.deep_view().take(i as int));
                assert(now.last() == lines[i as int]@);
            }
            match self.format_line(state, lines[i].as_str()) {
                Some(text) => {
                    texts.push(text);
                    assert(texts.deep_view() =~= before.push(text@));
                },
                None => {},
            }
            i = i + 1;
        }
        assert(lines.deep_view().take(i as int) =~= lines.deep_view());
        texts
    }
}

impl Args {
    /// What the run prints for its inputs, each given as the lines that
    /// were read from it.
    pub fn print_files(&self, inputs: &Vec<Vec<String>>) -> (printed: Vec<String>)
        requires
            inputs.deep_view().flatten().len() < u64::MAX,
        ensures
            printed.deep_view() == self.printed(inputs.deep_view()),
    {
        let mut printed: Vec<String> = Vec::new();
        let mut state = LineState::new();
        let ghost start = state;
        let ghost all = inputs.deep_view();
        let mut k: usize = 0;
        assert(all.take(0) =~= Seq::<Seq<Seq<char>>>::empty());
        assert(printed.deep_view() =~= Seq::<Seq<char>>::empty());
        while k < inputs.len()
            invariant
                k <= inputs.len(),
                all == inputs.deep_view(),
                all.flatten().len() < u64::MAX,
                start == LineState::start(),
                state.line_number <= 1 + all.take(k as int).flatten().len(),
                state == self.state_after_all(start, all.take(k as int).flatten()),
                printed.deep_view() == self.formatted_all(start, all.take(k as int).flatten()),
            decreases inputs.len() - k,
        {
            let ghost before = printed.deep_view();
            let ghost seen = all.take(k as int).flatten();
            let ghost next = all[k as int];
            proof {
                assert(all.take(k + 1) =~= all.take(k as int).push(next));
                all.take(k as int).lemma_flatten_push(next);
                assert(all =~= all.take(k + 1) + all.skip(k + 1));
                vstd::seq_lib::lemma_flatten_concat(all.take(k + 1), all.skip(k + 1));
                self.lemma_formatting_carries_over(start, seen, next);
                assert(next == inputs[k as int].deep_view());
            }
            let mut texts = self.format_lines(&mut state, &inputs[k]);
            let ghost added = texts.deep_view();
            printed.append(&mut texts);
            assert(printed.deep_view() =~= before + added);
            k = k + 1;
        }
        assert(all.take(k as int) =~= all);
        printed
    }
}

impl LineState {
    /// The state before the first line: the numbering starts at 1, and no
    /// empty line has been seen.
    pub open spec fn start() -> LineState {
        LineState { line_number: 1, prev_line_empty: false }
    }

    /// The state before the first line.
    pub fn new() -> (state: LineState)
        ensures
            state == LineState::start(),
    {
        LineState { line_number: 1, prev_line_empty: false }
    }
}

/// Shows the control characters of `input` in caret notation: a control
/// character below the blank becomes a caret and a letter, the delete
/// character `^?`; tab and line feed stay; the control characters from
/// U+0080 to U+009F are dropped.
pub fn show_nonprinting_chars(input: &str) -> (result: String)
    ensures
        result@ == nonprinting_shown(input@),
{
    let mut result = String::new();
    let ghost form = |c: char| caret_form(c);
    for ch in it: input.chars()
        invariant
            it.seq() == input@,
            form == |c: char| caret_form(c),
            result@ == expanded(input@.take(it.index() as int), form),
    {
        let ghost before = result@;
        proof {
            let now = input@.take(it.index() + 1);
            assert(now.drop_last() =~= input@.take(it.index() as int));
            assert(now.last() == ch);
        }
        let code = ch as u32;
        if code < 0x20 && code != 0x09 && code != 0x0A {
            result.push('^');
            result.push(((code + 0x40) as u8) as char);
            assert(result@ =~= before + caret_form(ch));
        } else if code == 0x7F {
            result.push('^');
            result.push('?');
            assert(result@ =~= before + caret_form(ch));
        } else if 0x80 <= code && code <= 0x9F {
            assert(result@ =~= before + caret_form(ch));
        } else {
            result.push(ch);
            assert(result@ =~= before + caret_form(ch));
        }
    }
    assert(input@.take(input@.len() as int) =~= input@);
    result
}

/// Shows each tab of `input` as `^I`.
pub fn show_tabs(input: &str) -> (result: String)
    ensures
        result@ == tabs_shown(input@),
{
    let mut result = String::new();
    let ghost form = |c: char| tab_form(c);
    for ch in it: input.chars()
        invariant
            it.seq() == input@,
            form == |c: char| tab_form(c),
            result@ == expanded(input@.take(it.index() as int), form),
    {
        let ghost before = result@;
        proof {
            let now = input@.take(it.index() + 1);
            assert(now.drop_last() =~= input@.take(it.index() as int));
            assert(now.last() == ch);
        }
        if ch == '\t' {
            result.push('^');
            result.push('I');
        } else {
            result.push(ch);
        }
        assert(result@ =~= before + tab_form(ch));
    }
    assert(input@.take(input@.len() as int) =~= input@);
    result
}

} // verus!
