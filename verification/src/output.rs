//! Text of the command line's progress bars, spinners and boxes.
use vstd::prelude::*;
use crate::text::{push_char, push_str, push_usize_decimal, nat_digits};

verus! {

/// `n` copies of `c`.
pub open spec fn repeat_char(c: char, n: nat) -> Seq<char> {
    Seq::new(n, |_i: int| c)
}

/// The character, or a space when there is none.
pub open spec fn or_space(c: Option<char>) -> char {
    match c {
        Some(x) => x,
        None => ' ',
    }
}

/// Right-aligns a text in a field of three characters.
pub open spec fn right_align3(s: Seq<char>) -> Seq<char> {
    if s.len() >= 3 { s } else { repeat_char(' ', (3 - s.len()) as nat) + s }
}

/// Appends `n` copies of `c`.
fn push_repeated(s: &mut String, c: char, n: usize)
    ensures
        final(s)@ == old(s)@ + repeat_char(c, n as nat),
{
    let mut i: usize = 0;
    while i < n
        invariant
            i <= n,
            s@ == old(s)@ + repeat_char(c, i as nat),
        decreases n - i,
    {
        push_char(s, c);
        assert(old(s)@ + repeat_char(c, (i + 1) as nat) =~= (old(s)@ + repeat_char(c, i as nat)).push(c));
        i += 1;
    }
}

/// The characters a progress bar is drawn with.
#[derive(Debug, Clone, Copy, PartialEq, Eq, Structural)]
pub struct ProgressCharacterSet {
    pub left_container: Option<char>,
    pub complete: char,
    pub current: char,
    pub incomplete: char,
    pub right_container: Option<char>,
}

impl ProgressCharacterSet {
    /// A set with every character given.
    pub fn new(left_container: Option<char>, complete: char, current: char, incomplete: char, right_container: Option<char>) -> (r: Self)
        ensures
            r == (ProgressCharacterSet { left_container, complete, current, incomplete, right_container }),
    {
        ProgressCharacterSet { left_container, complete, current, incomplete, right_container }
    }

    /// `│█▒░│`
    pub fn boxes() -> (r: Self)
        ensures
            r == (ProgressCharacterSet {
                left_container: Some('│'), complete: '█', current: '▒', incomplete: '░', right_container: Some('│'),
            }),
    {
        ProgressCharacterSet { left_container: Some('│'), complete: '█', current: '▒', incomplete: '░', right_container: Some('│') }
    }

    /// `[=> ]`
    pub fn arrow() -> (r: Self)
        ensures
            r == (ProgressCharacterSet {
                left_container: Some('['), complete: '=', current: '>', incomplete: ' ', right_container: Some(']'),
            }),
    {
        ProgressCharacterSet { left_container: Some('['), complete: '=', current: '>', incomplete: ' ', right_container: Some(']') }
    }

    /// `(●◐○)`
    pub fn circles() -> (r: Self)
        ensures
            r == (ProgressCharacterSet {
                left_container: Some('('), complete: '●', current: '◐', incomplete: '○', right_container: Some(')'),
            }),
    {
        ProgressCharacterSet { left_container: Some('('), complete: '●', current: '◐', incomplete: '○', right_container: Some(')') }
    }

    /// `(*+.)`
    pub fn stars() -> (r: Self)
        ensures
            r == (ProgressCharacterSet {
                left_container: Some('('), complete: '*', current: '+', incomplete: '.', right_container: Some(')'),
            }),
    {
        ProgressCharacterSet { left_container: Some('('), complete: '*', current: '+', incomplete: '.', right_container: Some(')') }
    }

    /// `[#>-]`
    pub fn hashes() -> (r: Self)
        ensures
            r == (ProgressCharacterSet {
                left_container: Some('['), complete: '#', current: '>', incomplete: '-', right_container: Some(']'),
            }),
    {
        ProgressCharacterSet { left_container: Some('['), complete: '#', current: '>', incomplete: '-', right_container: Some(']') }
    }
}

impl Default for ProgressCharacterSet {
    fn default() -> (r: Self)
        ensures
            r == (ProgressCharacterSet {
                left_container: Some('│'), complete: '█', current: '▒', incomplete: '░', right_container: Some('│'),
            }),
    {
        ProgressCharacterSet::boxes()
    }
}

/// The text of a progress bar with `done` of `total` steps completed: the
/// containers around `total` cells (completed cells, then the current one, then
/// the incomplete ones) and the percentage right-aligned in three columns; a bar
/// of no steps shows `0` left-aligned.
pub open spec fn progress_text(done: nat, total: nat, cs: ProgressCharacterSet) -> Seq<char> {
    let l = or_space(cs.left_container);
    let r = or_space(cs.right_container);
    if total == 0 {
        seq![l, r, ' ', '0', ' ', ' ', '%']
    } else if done >= total {
        seq![l] + repeat_char(cs.complete, total) + seq![r] + " 100%"@
    } else {
        seq![l] + repeat_char(cs.complete, done) + seq![cs.current]
            + repeat_char(cs.incomplete, (total - done - 1) as nat) + seq![r] + seq![' ']
            + right_align3(nat_digits(done * 100 / total)) + seq!['%']
    }
}

/// A progress bar: how many of its steps are done.
#[derive(Debug)]
pub struct Progress {
    completed_steps: usize,
    total_steps: usize,
    characters: ProgressCharacterSet,
}

impl Progress {
    /// The steps done.
    pub closed spec fn done(&self) -> nat { self.completed_steps as nat }

    /// The number of steps.
    pub closed spec fn total(&self) -> nat { self.total_steps as nat }

    /// The characters the bar is drawn with.
    pub closed spec fn chars(&self) -> ProgressCharacterSet { self.characters }

    /// A bar of `total_steps` steps, none done, drawn with boxes.
    pub fn new(total_steps: usize) -> (r: Self)
        ensures
            r.done() == 0,
            r.total() == total_steps,
            r.chars() == (ProgressCharacterSet {
                left_container: Some('│'), complete: '█', current: '▒', incomplete: '░', right_container: Some('│'),
            }),
    {
        Progress { completed_steps: 0, total_steps, characters: ProgressCharacterSet::default() }
    }

    /// The bar with another number of steps.
    pub fn with_total(self, total_steps: usize) -> (r: Self)
        ensures
            r.done() == self.done(),
            r.total() == total_steps,
            r.chars() == self.chars(),
    {
        Progress { completed_steps: self.completed_steps, total_steps, characters: self.characters }
    }

    /// The bar with another number of steps done.
    pub fn with_steps(self, completed_steps: usize) -> (r: Self)
        ensures
            r.done() == completed_steps,
            r.total() == self.total(),
            r.chars() == self.chars(),
    {
        Progress { completed_steps, total_steps: self.total_steps, characters: self.characters }
    }

    /// The bar drawn with other characters.
    pub fn with_progress_characters(self, characters: ProgressCharacterSet) -> (r: Self)
        ensures
            r.done() == self.done(),
            r.total() == self.total(),
            r.chars() == characters,
    {
        Progress { completed_steps: self.completed_steps, total_steps: self.total_steps, characters }
    }

    /// The steps done.
    pub fn get_progress(&self) -> (r: usize)
        ensures
            r == self.done(),
    {
        self.completed_steps
    }

    /// The number of steps.
    pub fn get_total(&self) -> (r: usize)
        ensures
            r == self.total(),
    {
        self.total_steps
    }

    /// The characters the bar is drawn with.
    pub fn get_characters(&self) -> (r: &ProgressCharacterSet)
        ensures
            *r == self.chars(),
    {
        &self.characters
    }

    /// One more step done.
    pub fn advance(&mut self)
        requires
            old(self).done() < usize::MAX,
        ensures
            final(self).done() == old(self).done() + 1,
            final(self).total() == old(self).total(),
            final(self).chars() == old(self).chars(),
    {
        self.completed_steps = self.completed_steps + 1;
    }

    /// `steps` more steps done.
    pub fn advance_by(&mut self, steps: usize)
        requires
            old(self).done() + steps <= usize::MAX,
        ensures
            final(self).done() == old(self).done() + steps,
            final(self).total() == old(self).total(),
            final(self).chars() == old(self).chars(),
    {
        self.completed_steps = self.completed_steps + steps;
    }

    /// The text of the bar.
    pub fn render(&self) -> (r: String)
        requires
            self.total() > 0 ==> self.done() * 100 <= usize::MAX,
        ensures
            r@ == progress_text(self.done(), self.total(), self.chars()),
    {
        let cs = self.characters;
        let l = match cs.left_container { Some(c) => c, None => ' ' };
        let rc = match cs.right_container { Some(c) => c, None => ' ' };
        let mut out = String::new();
        push_char(&mut out, l);
        if self.total_steps == 0 {
            push_char(&mut out, rc);
            push_char(&mut out, ' ');
            push_char(&mut out, '0');
            push_char(&mut out, ' ');
            push_char(&mut out, ' ');
            push_char(&mut out, '%');
            assert(out@ =~= progress_text(self.done(), self.total(), self.chars()));
            return out;
        }
        let progress = (self.completed_steps * 100) / self.total_steps;
        let complete = if self.completed_steps < self.total_steps { self.completed_steps } else { self.total_steps };
        if complete == self.total_steps {
            push_repeated(&mut out, cs.complete, self.total_steps);
            push_char(&mut out, rc);
            push_str(&mut out, " 100%");
            assert(out@ =~= progress_text(self.done(), self.total(), self.chars()));
            out
        } else {
            let incomplete = self.total_steps - complete - 1;
            push_repeated(&mut out, cs.complete, complete);
            push_char(&mut out, cs.current);
            push_repeated(&mut out, cs.incomplete, incomplete);
            push_char(&mut out, rc);
            push_char(&mut out, ' ');
            let ghost before = out@;
            let digits = crate::text::usize_to_string(progress);
            let mut pad: usize = 0;
            if digits.unicode_len() < 3 {
                pad = 3 - digits.unicode_len();
            }
            push_repeated(&mut out, ' ', pad);
            push_str(&mut out, digits.as_str());
            push_char(&mut out, '%');
            assert(right_align3(nat_digits(progress as nat)) =~= repeat_char(' ', pad as nat) + digits@);
            assert(out@ =~= progress_text(self.done(), self.total(), self.chars()));
            out
        }
    }
}

/// The frames a spinner cycles through.
#[derive(Debug)]
pub struct SpinnerCharacterSet {
    pub frames: Vec<String>,
}

/// The texts of a list of frames.
pub open spec fn frame_texts(frames: Seq<String>) -> Seq<Seq<char>> {
    frames.map_values(|f: String| f@)
}

fn frames_of(texts: &[&str]) -> (r: Vec<String>)
    ensures
        frame_texts(r@) == texts@.map_values(|t: &str| t@),
{
    let mut out: Vec<String> = Vec::new();
    let mut i: usize = 0;
    while i < texts.len()
        invariant
            i <= texts@.len(),
            out@.len() == i,
            frame_texts(out@) == texts@.subrange(0, i as int).map_values(|t: &str| t@),
        decreases texts@.len() - i,
    {
        let f = String::from_str(texts[i]);
        let ghost prev = out@;
        out.push(f);
        assert forall|j: int| 0 <= j <= i implies #[trigger] frame_texts(out@)[j]
            == texts@.subrange(0, i as int + 1).map_values(|t: &str| t@)[j] by {
            if j < i {
                assert(out@[j] == prev[j]);
                assert(frame_texts(prev)[j] == texts@.subrange(0, i as int).map_values(|t: &str| t@)[j]);
            }
        }
        assert(frame_texts(out@) =~= texts@.subrange(0, i as int + 1).map_values(|t: &str| t@));
        i += 1;
    }
    assert(texts@.subrange(0, i as int) =~= texts@);
    out
}

impl SpinnerCharacterSet {
    /// A set of the given frames.
    pub fn new(frames: Vec<String>) -> (r: Self)
        ensures
            r.frames@ == frames@,
    {
        SpinnerCharacterSet { frames }
    }

    /// Braille dots.
    pub fn dots() -> (r: Self)
        ensures
            frame_texts(r.frames@) == seq!["⠋"@, "⠙"@, "⠹"@, "⠸"@, "⠼"@, "⠴"@, "⠦"@, "⠧"@, "⠇"@, "⠏"@],
    {
        let texts: [&str; 10] = ["⠋", "⠙", "⠹", "⠸", "⠼", "⠴", "⠦", "⠧", "⠇", "⠏"];
        let frames = frames_of(&texts);
        assert(texts@.map_values(|t: &str| t@) =~= seq!["⠋"@, "⠙"@, "⠹"@, "⠸"@, "⠼"@, "⠴"@, "⠦"@, "⠧"@, "⠇"@, "⠏"@]);
        SpinnerCharacterSet { frames }
    }

    /// A turning line.
    pub fn line() -> (r: Self)
        ensures
            frame_texts(r.frames@) == seq!["-"@, "\\"@, "|"@, "/"@],
    {
        let texts: [&str; 4] = ["-", "\\", "|", "/"];
        let frames = frames_of(&texts);
        assert(texts@.map_values(|t: &str| t@) =~= seq!["-"@, "\\"@, "|"@, "/"@]);
        SpinnerCharacterSet { frames }
    }

    /// A turning half-filled circle.
    pub fn circle() -> (r: Self)
        ensures
            frame_texts(r.frames@) == seq!["◐"@, "◓"@, "◑"@, "◒"@],
    {
        let texts: [&str; 4] = ["◐", "◓", "◑", "◒"];
        let frames = frames_of(&texts);
        assert(texts@.map_values(|t: &str| t@) =~= seq!["◐"@, "◓"@, "◑"@, "◒"@]);
        SpinnerCharacterSet { frames }
    }

    /// A turning arrow.
    pub fn arrow() -> (r: Self)
        ensures
            frame_texts(r.frames@) == seq!["←"@, "↖"@, "↑"@, "↗"@, "→"@, "↘"@, "↓"@, "↙"@],
    {
        let texts: [&str; 8] = ["←", "↖", "↑", "↗", "→", "↘", "↓", "↙"];
        let frames = frames_of(&texts);
        assert(texts@.map_values(|t: &str| t@) =~= seq!["←"@, "↖"@, "↑"@, "↗"@, "→"@, "↘"@, "↓"@, "↙"@]);
        SpinnerCharacterSet { frames }
    }
}

impl Default for SpinnerCharacterSet {
    fn default() -> (r: Self)
        ensures
            frame_texts(r.frames@) == seq!["⠋"@, "⠙"@, "⠹"@, "⠸"@, "⠼"@, "⠴"@, "⠦"@, "⠧"@, "⠇"@, "⠏"@],
    {
        SpinnerCharacterSet::dots()
    }
}

/// A spinner: its frames and the one it shows next.
#[derive(Debug)]
pub struct Spinner {
    frames: SpinnerCharacterSet,
    current_frame: usize,
}

impl Spinner {
    /// The texts of the frames.
    pub closed spec fn frame_list(&self) -> Seq<Seq<char>> { frame_texts(self.frames.frames@) }

    /// The index of the frame shown next.
    pub closed spec fn current(&self) -> nat { self.current_frame as nat }

    /// A spinner of braille dots at its first frame.
    pub fn new() -> (r: Self)
        ensures
            r.frame_list() == seq!["⠋"@, "⠙"@, "⠹"@, "⠸"@, "⠼"@, "⠴"@, "⠦"@, "⠧"@, "⠇"@, "⠏"@],
            r.current() == 0,
    {
        Spinner { frames: SpinnerCharacterSet::default(), current_frame: 0 }
    }

    /// The spinner with other frames, at the same position.
    pub fn with_frames(self, frames: SpinnerCharacterSet) -> (r: Self)
        ensures
            r.frame_list() == frame_texts(frames.frames@),
            r.current() == self.current(),
    {
        Spinner { frames, current_frame: self.current_frame }
    }

    /// The number of frames.
    pub fn frame_count(&self) -> (r: usize)
        ensures
            r == self.frame_list().len(),
    {
        self.frames.frames.len()
    }

    /// The index of the frame shown next.
    pub fn current_index(&self) -> (r: usize)
        ensures
            r == self.current(),
    {
        self.current_frame
    }

    /// The current frame; the spinner moves on to the next one, after the last
    /// back to the first.
    pub fn next_frame(&mut self) -> (r: &str)
        requires
            old(self).current() < old(self).frame_list().len(),
        ensures
            r@ == old(self).frame_list()[old(self).current() as int],
            final(self).frame_list() == old(self).frame_list(),
            final(self).current() == (old(self).current() + 1) % old(self).frame_list().len(),
    {
        let i = self.current_frame;
        let n = self.frames.frames.len();
        self.current_frame = (i + 1) % n;
        self.frames.frames[i].as_str()
    }
}

/// The corners of a drawn box.
#[derive(Debug, Clone, Copy, PartialEq, Eq, Structural)]
pub struct BoxCorners {
    pub top_left: char,
    pub top_right: char,
    pub middle_left: char,
    pub middle_right: char,
    pub bottom_left: char,
    pub bottom_right: char,
}

impl Default for BoxCorners {
    fn default() -> (r: Self)
        ensures
            r == (BoxCorners {
                top_left: '┌', top_right: '┐', middle_left: '├', middle_right: '┤', bottom_left: '└', bottom_right: '┘',
            }),
    {
        BoxCorners { top_left: '┌', top_right: '┐', middle_left: '├', middle_right: '┤', bottom_left: '└', bottom_right: '┘' }
    }
}

/// The borders of a drawn box.
#[derive(Debug, Clone, Copy, PartialEq, Eq, Structural)]
pub struct BoxBorders {
    pub top: char,
    pub right: char,
    pub bottom: char,
    pub left: char,
}

impl Default for BoxBorders {
    fn default() -> (r: Self)
        ensures
            r == (BoxBorders { top: '─', right: '│', bottom: '─', left: '│' }),
    {
        BoxBorders { top: '─', right: '│', bottom: '─', left: '│' }
    }
}

/// The room for text inside a box of `total_width` columns: two borders and two
/// spaces of padding are taken off, down to nothing.
pub fn inner_width_for(total_width: usize) -> (r: usize)
    ensures
        r == if total_width >= 4 { total_width - 4 } else { 0 },
{
    total_width.saturating_sub(4)
}

/// A rule across a box: `left`, the fill repeated over the inner width and its
/// two paddings, `right`.
pub fn rule_line(left: char, fill: char, right: char, inner_width: usize) -> (r: String)
    requires
        inner_width + 2 <= usize::MAX,
    ensures
        r@ == seq![left] + repeat_char(fill, (inner_width + 2) as nat) + seq![right],
{
    let mut out = String::new();
    push_char(&mut out, left);
    push_repeated(&mut out, fill, inner_width + 2);
    push_char(&mut out, right);
    out
}

/// A row of a box: the left border, a space, the text padded with spaces to the
/// inner width (by its visible width), a space and the right border.
pub fn boxed_row(borders: &BoxBorders, text: &str, visible_width: usize, inner_width: usize) -> (r: String)
    ensures
        r@ == seq![borders.left, ' '] + text@
            + repeat_char(' ', if inner_width >= visible_width { (inner_width - visible_width) as nat } else { 0 })
            + seq![' ', borders.right],
{
    let pad = inner_width.saturating_sub(visible_width);
    let mut out = String::new();
    push_char(&mut out, borders.left);
    push_char(&mut out, ' ');
    push_str(&mut out, text);
    push_repeated(&mut out, ' ', pad);
    push_char(&mut out, ' ');
    push_char(&mut out, borders.right);
    assert(out@ =~= seq![borders.left, ' '] + text@ + repeat_char(' ', pad as nat) + seq![' ', borders.right]);
    out
}

} // verus!
