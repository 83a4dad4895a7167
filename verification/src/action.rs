//! What a character does, and the text commands that ask for it.
//!
//! A command is a line of two or three words: a kind, a direction, and
//! optionally how many times.

use vstd::prelude::*;
use vstd::string::StrSliceExecFns;

verus! {

/// The way a character faces.
#[derive(Clone, Copy, Debug, PartialEq, Eq, Structural, Hash)]
pub enum ActionDirection {
    Up,
    Down,
    Left,
    Right,
}

/// What a character does.
#[derive(Clone, Copy, Debug, PartialEq, Eq, Structural, Hash)]
pub enum ActionKind {
    Stand,
    Walk,
    Run,
}

/// One step of a character.
#[derive(Clone, Copy, Debug, PartialEq, Eq, Structural, Hash)]
pub struct Action {
    pub kind: ActionKind,
    pub direction: ActionDirection,
}

/// What lies where a character wants to step.
#[derive(Clone, Copy, Debug, PartialEq, Eq, Structural)]
pub enum StepTarget {
    /// The chunk of the tile is not loaded.
    Unloaded,
    /// The chunk is loaded and has no tile there.
    Empty,
    /// A tile of this terrain level.
    Tile(u32),
}

/// A walk that is asked for more than this many times becomes a run.
pub const WALK_LIMIT: usize = 5;

/// The text of a string in upper case, as `str::to_uppercase` gives it.
pub uninterp spec fn uppercase_of(text: Seq<char>) -> Seq<char>;

/// `str::to_uppercase` of std: the text in upper case. What that is for
/// each character is the business of the Unicode tables, so the result has
/// a name only.
#[verifier::external_body]
fn to_uppercase(text: &str) -> (upper: String)
    ensures
        upper@ == uppercase_of(text@),
{
    text.to_uppercase()
}

/// White space as Unicode defines it, which is what separates words.
pub open spec fn is_space(c: char) -> bool {
    let code = c as u32;
    ||| 0x09 <= code <= 0x0d
    ||| code == 0x20
    ||| code == 0x85
    ||| code == 0xa0
    ||| code == 0x1680
    ||| 0x2000 <= code <= 0x200a
    ||| code == 0x2028
    ||| code == 0x2029
    ||| code == 0x202f
    ||| code == 0x205f
    ||| code == 0x3000
}

/// Where the line that starts at `from` ends: at the next line feed, or at
/// the end of the text.
pub open spec fn line_end(text: Seq<char>, from: int) -> int
    recommends
        0 <= from,
    decreases text.len() - from,
{
    if from < 0 || from >= text.len() || text[from] == '\n' {
        from
    } else {
        line_end(text, from + 1)
    }
}

/// Where the word that starts at `from` ends: at the next white space, or
/// at `end`.
pub open spec fn word_end(text: Seq<char>, from: int, end: int) -> int
    recommends
        0 <= from,
        end <= text.len(),
    decreases end - from,
{
    if from < 0 || from >= end || end > text.len() || is_space(text[from]) {
        from
    } else {
        word_end(text, from + 1, end)
    }
}

/// The words of `text` between `from` and `end`: the runs of characters
/// that white space separates.
pub open spec fn words_between(text: Seq<char>, from: int, end: int) -> Seq<Seq<char>>
    recommends
        0 <= from,
        end <= text.len(),
    decreases end - from,
{
    if from < 0 || from >= end || end > text.len() {
        Seq::empty()
    } else if is_space(text[from]) {
        words_between(text, from + 1, end)
    } else if !(from < word_end(text, from, end) <= end) {
        Seq::empty()
    } else {
        seq![text.subrange(from, word_end(text, from, end))] + words_between(
            text,
            word_end(text, from, end),
            end,
        )
    }
}

/// Whether `c` is the capital letter `letter` or its small form.
pub open spec fn is_letter(c: char, letter: char) -> bool {
    c == letter || c as u32 == letter as u32 + 32
}

/// Whether `word` is `name`, which is in capital letters, in capital or
/// small letters.
pub open spec fn is_name(word: Seq<char>, name: Seq<char>) -> bool {
    &&& word.len() == name.len()
    &&& forall|i: int| 0 <= i < word.len() ==> is_letter(#[trigger] word[i], name[i])
}

pub open spec fn stand_name() -> Seq<char> {
    seq!['S', 'T', 'A', 'N', 'D']
}

pub open spec fn walk_name() -> Seq<char> {
    seq!['W', 'A', 'L', 'K']
}

pub open spec fn run_name() -> Seq<char> {
    seq!['R', 'U', 'N']
}

pub open spec fn up_name() -> Seq<char> {
    seq!['U', 'P']
}

pub open spec fn down_name() -> Seq<char> {
    seq!['D', 'O', 'W', 'N']
}

pub open spec fn left_name() -> Seq<char> {
    seq!['L', 'E', 'F', 'T']
}

pub open spec fn right_name() -> Seq<char> {
    seq!['R', 'I', 'G', 'H', 'T']
}

/// The kind that a word names.
pub open spec fn kind_of(word: Seq<char>) -> Option<ActionKind> {
    if is_name(word, stand_name()) {
        Some(ActionKind::Stand)
    } else if is_name(word, walk_name()) {
        Some(ActionKind::Walk)
    } else if is_name(word, run_name()) {
        Some(ActionKind::Run)
    } else {
        None
    }
}

/// The direction that a word names.
pub open spec fn direction_of(word: Seq<char>) -> Option<ActionDirection> {
    if is_name(word, up_name()) {
        Some(ActionDirection::Up)
    } else if is_name(word, down_name()) {
        Some(ActionDirection::Down)
    } else if is_name(word, left_name()) {
        Some(ActionDirection::Left)
    } else if is_name(word, right_name()) {
        Some(ActionDirection::Right)
    } else {
        None
    }
}

pub open spec fn is_digit(c: char) -> bool {
    0x30 <= c as u32 <= 0x39
}

/// The number that decimal digits write.
pub open spec fn digits_value(digits: Seq<char>) -> int
    decreases digits.len(),
{
    if digits.len() == 0 {
        0
    } else {
        digits_value(digits.drop_last()) * 10 + (digits.last() as u32 - 0x30)
    }
}

/// The digits of a word that may start with a plus sign.
pub open spec fn unsigned_part(word: Seq<char>) -> Seq<char> {
    if word.len() > 0 && word[0] == '+' {
        word.skip(1)
    } else {
        word
    }
}

/// The count that a word writes: decimal digits, at least one, after an
/// optional plus sign, as far as the number is a `usize`.
pub open spec fn count_of(word: Seq<char>) -> Option<usize> {
    let digits = unsigned_part(word);
    if digits.len() > 0 && (forall|i: int| 0 <= i < digits.len() ==> is_digit(#[trigger] digits[i]))
        && digits_value(digits) <= usize::MAX {
        Some(digits_value(digits) as usize)
    } else {
        None
    }
}

/// The actions that a command of these words asks for. A command has a kind,
/// a direction and, optionally, a count, which is one where it is left
/// out; a walk of more than `WALK_LIMIT` steps is a run. Words that are no
/// command ask for nothing.
pub open spec fn command_actions(words: Seq<Seq<char>>) -> Seq<Action> {
    if words.len() < 2 || words.len() > 3 {
        Seq::empty()
    } else {
        match (kind_of(words[0]), direction_of(words[1])) {
            (Some(kind), Some(direction)) => {
                let count = if words.len() == 3 {
                    count_of(words[2])
                } else {
                    Some(1usize)
                };
                match count {
                    Some(times) => Seq::new(
                        times as nat,
                        |i: int|
                            Action {
                                kind: if times > WALK_LIMIT && kind == ActionKind::Walk {
                                    ActionKind::Run
                                } else {
                                    kind
                                },
                                direction,
                            },
                    ),
                    None => Seq::empty(),
                }
            },
            _ => Seq::empty(),
        }
    }
}

/// The actions that the lines of `text` from `from` on ask for, line after
/// line.
pub open spec fn actions_from(text: Seq<char>, from: int) -> Seq<Action>
    recommends
        0 <= from,
    decreases text.len() - from,
{
    if from < 0 || from >= text.len() {
        Seq::empty()
    } else if !(from <= line_end(text, from) < text.len()) {
        command_actions(words_between(text, from, text.len() as int))
    } else {
        command_actions(words_between(text, from, line_end(text, from))) + actions_from(
            text,
            line_end(text, from) + 1,
        )
    }
}

/// The actions that a text asks for.
pub open spec fn actions_of(text: Seq<char>) -> Seq<Action> {
    actions_from(text, 0)
}

/// Decides whether a character is white space.
pub fn is_whitespace(c: char) -> (r: bool)
    ensures
        r == is_space(c),
{
    let code: u32 = c as u32;
    (0x09 <= code && code <= 0x0d) || code == 0x20 || code == 0x85 || code == 0xa0 || code == 0x1680
        || (0x2000 <= code && code <= 0x200a) || code == 0x2028 || code == 0x2029 || code == 0x202f
        || code == 0x205f || code == 0x3000
}

/// Finds the end of the line that starts at `from`.
fn find_line_end(text: &Vec<char>, from: usize) -> (end: usize)
    requires
        from <= text@.len(),
    ensures
        from <= end <= text@.len(),
        end == line_end(text@, from as int),
{
    let mut i: usize = from;
    while i < text.len() && text[i] != '\n'
        invariant
            from <= i <= text@.len(),
            line_end(text@, from as int) == line_end(text@, i as int),
        decreases text@.len() - i,
    {
        i += 1;
    }
    i
}

/// Finds the end of the word that starts at `from`.
fn find_word_end(text: &Vec<char>, from: usize, end: usize) -> (stop: usize)
    requires
        from <= end <= text@.len(),
    ensures
        from <= stop <= end,
        stop == word_end(text@, from as int, end as int),
        from < end && !is_space(text@[from as int]) ==> from < stop,
{
    let mut i: usize = from;
    while i < end && !is_whitespace(text[i])
        invariant
            from <= i <= end <= text@.len(),
            word_end(text@, from as int, end as int) == word_end(text@, i as int, end as int),
        decreases end - i,
    {
        i += 1;
    }
    i
}

/// Finds the next word between `from` and `end`, if there is one.
fn next_word(text: &Vec<char>, from: usize, end: usize) -> (word: Option<(usize, usize)>)
    requires
        from <= end <= text@.len(),
    ensures
        match word {
            Some((start, stop)) => {
                &&& from <= start < stop <= end
                &&& words_between(text@, from as int, end as int) == seq![
                    text@.subrange(start as int, stop as int),
                ] + words_between(text@, stop as int, end as int)
            },
            None => words_between(text@, from as int, end as int) == Seq::<Seq<char>>::empty(),
        },
{
    let mut i: usize = from;
    while i < end && is_whitespace(text[i])
        invariant
            from <= i <= end <= text@.len(),
            words_between(text@, from as int, end as int) == words_between(
                text@,
                i as int,
                end as int,
            ),
        decreases end - i,
    {
        i += 1;
    }
    if i >= end {
        return None;
    }
    let stop: usize = find_word_end(text, i, end);
    Some((i, stop))
}

/// Decides whether the word between `start` and `stop` is `name`.
fn word_is(text: &Vec<char>, start: usize, stop: usize, name: &[char]) -> (r: bool)
    requires
        start <= stop <= text@.len(),
        forall|i: int| 0 <= i < name@.len() ==> (#[trigger] name@[i]) as u32 <= 0x7f,
    ensures
        r == is_name(text@.subrange(start as int, stop as int), name@),
{
    if stop - start != name.len() {
        return false;
    }
    let ghost word = text@.subrange(start as int, stop as int);
    let mut i: usize = 0;
    while i < name.len()
        invariant
            0 <= i <= name@.len(),
            start <= stop <= text@.len(),
            stop - start == name@.len(),
            word == text@.subrange(start as int, stop as int),
            forall|k: int| 0 <= k < name@.len() ==> (#[trigger] name@[k]) as u32 <= 0x7f,
            forall|k: int| 0 <= k < i ==> is_letter(#[trigger] word[k], name@[k]),
        decreases name@.len() - i,
    {
        let c: char = text[start + i];
        let letter: char = name[i];
        assert(c == word[i as int]);
        if !(c == letter || c as u32 == letter as u32 + 32) {
            return false;
        }
        i += 1;
    }
    true
}

/// Reads the kind that a word names.
fn read_kind(text: &Vec<char>, start: usize, stop: usize) -> (kind: Option<ActionKind>)
    requires
        start <= stop <= text@.len(),
    ensures
        kind == kind_of(text@.subrange(start as int, stop as int)),
{
    let stand: [char; 5] = ['S', 'T', 'A', 'N', 'D'];
    let walk: [char; 4] = ['W', 'A', 'L', 'K'];
    let run: [char; 3] = ['R', 'U', 'N'];
    assert(stand@ =~= stand_name());
    assert(walk@ =~= walk_name());
    assert(run@ =~= run_name());
    if word_is(text, start, stop, stand.as_slice()) {
        Some(ActionKind::Stand)
    } else if word_is(text, start, stop, walk.as_slice()) {
        Some(ActionKind::Walk)
    } else if word_is(text, start, stop, run.as_slice()) {
        Some(ActionKind::Run)
    } else {
        None
    }
}

/// Reads the direction that a word names.
fn read_direction(text: &Vec<char>, start: usize, stop: usize) -> (direction: Option<ActionDirection>)
    requires
        start <= stop <= text@.len(),
    ensures
        direction == direction_of(text@.subrange(start as int, stop as int)),
{
    let up: [char; 2] = ['U', 'P'];
    let down: [char; 4] = ['D', 'O', 'W', 'N'];
    let left: [char; 4] = ['L', 'E', 'F', 'T'];
    let right: [char; 5] = ['R', 'I', 'G', 'H', 'T'];
    assert(up@ =~= up_name());
    assert(down@ =~= down_name());
    assert(left@ =~= left_name());
    assert(right@ =~= right_name());
    if word_is(text, start, stop, up.as_slice()) {
        Some(ActionDirection::Up)
    } else if word_is(text, start, stop, down.as_slice()) {
        Some(ActionDirection::Down)
    } else if word_is(text, start, stop, left.as_slice()) {
        Some(ActionDirection::Left)
    } else if word_is(text, start, stop, right.as_slice()) {
        Some(ActionDirection::Right)
    } else {
        None
    }
}

/// Digits write at least what their first digits write.
pub proof fn lemma_digits_grow(digits: Seq<char>, n: int)
    requires
        0 <= n <= digits.len(),
        forall|i: int| 0 <= i < digits.len() ==> is_digit(#[trigger] digits[i]),
    ensures
        0 <= digits_value(digits.subrange(0, n)) <= digits_value(digits),
    decreases digits.len() - n,
{
    if n == digits.len() {
        assert(digits.subrange(0, n) =~= digits);
        lemma_digits_nonnegative(digits);
    } else {
        lemma_digits_grow(digits, n + 1);
        assert(digits.subrange(0, n + 1).drop_last() =~= digits.subrange(0, n));
        lemma_digits_nonnegative(digits.subrange(0, n));
    }
}

/// Digits write no negative number.
pub proof fn lemma_digits_nonnegative(digits: Seq<char>)
    requires
        forall|i: int| 0 <= i < digits.len() ==> is_digit(#[trigger] digits[i]),
    ensures
        digits_value(digits) >= 0,
    decreases digits.len(),
{
    if digits.len() > 0 {
        lemma_digits_nonnegative(digits.drop_last());
    }
}

/// Reads the count that a word writes.
fn read_count(text: &Vec<char>, start: usize, stop: usize) -> (count: Option<usize>)
    requires
        start <= stop <= text@.len(),
    ensures
        count == count_of(text@.subrange(start as int, stop as int)),
{
    let ghost word = text@.subrange(start as int, stop as int);
    let first: usize = if start < stop && text[start] == '+' {
        start + 1
    } else {
        start
    };
    let ghost digits = text@.subrange(first as int, stop as int);
    assert(digits =~= unsigned_part(word));
    if first >= stop {
        return None;
    }
    let mut value: usize = 0;
    let mut i: usize = first;
    assert(digits.subrange(0, 0) =~= Seq::<char>::empty());
    while i < stop
        invariant
            first <= i <= stop <= text@.len(),
            first < stop,
            start <= stop,
            word == text@.subrange(start as int, stop as int),
            digits == text@.subrange(first as int, stop as int),
            digits == unsigned_part(word),
            forall|k: int| 0 <= k < i - first ==> is_digit(#[trigger] digits[k]),
            value == digits_value(digits.subrange(0, i - first)),
        decreases stop - i,
    {
        let c: char = text[i];
        assert(c == digits[i - first]);
        let code: u32 = c as u32;
        if code < 0x30 || code > 0x39 {
            assert(!is_digit(digits[i - first]));
            return None;
        }
        let digit: usize = (code - 0x30) as usize;
        proof {
            assert(digits.subrange(0, i - first + 1).drop_last() =~= digits.subrange(
                0,
                i - first,
            ));
            if forall|k: int| 0 <= k < digits.len() ==> is_digit(#[trigger] digits[k]) {
                lemma_digits_grow(digits, i - first + 1);
            }
        }
        let next: Option<usize> = match value.checked_mul(10) {
            Some(tens) => tens.checked_add(digit),
            None => None,
        };
        match next {
            Some(sum) => {
                value = sum;
            },
            None => {
                return None;
            },
        }
        i += 1;
    }
    assert(digits.subrange(0, i - first) =~= digits);
    Some(value)
}

/// Reads one line of commands, between `from` and `end`, and adds its
/// actions to `actions`.
fn read_line(text: &Vec<char>, from: usize, end: usize, actions: &mut Vec<Action>)
    requires
        from <= end <= text@.len(),
    ensures
        final(actions)@ == old(actions)@ + command_actions(
            words_between(text@, from as int, end as int),
        ),
{
    let ghost words = words_between(text@, from as int, end as int);
    let ghost before = actions@;
    proof {
        assert(before + Seq::<Action>::empty() =~= before);
    }
    let (kind_start, kind_stop) = match next_word(text, from, end) {
        Some(word) => word,
        None => {
            return ;
        },
    };
    let (direction_start, direction_stop) = match next_word(text, kind_stop, end) {
        Some(word) => word,
        None => {
            assert(words.len() == 1);
            return ;
        },
    };
    let third = next_word(text, direction_stop, end);
    let ghost rest = words_between(text@, direction_stop as int, end as int);
    assert(words =~= seq![
        text@.subrange(kind_start as int, kind_stop as int),
        text@.subrange(direction_start as int, direction_stop as int),
    ] + rest);
    let count: Option<usize> = match third {
        Some((count_start, count_stop)) => {
            let fourth = next_word(text, count_stop, end);
            if fourth.is_some() {
                assert(words.len() > 3);
                return ;
            }
            assert(words.len() == 3);
            assert(words[2] == text@.subrange(count_start as int, count_stop as int));
            read_count(text, count_start, count_stop)
        },
        None => {
            assert(words.len() == 2);
            Some(1)
        },
    };
    let kind = read_kind(text, kind_start, kind_stop);
    let direction = read_direction(text, direction_start, direction_stop);
    match (kind, direction, count) {
        (Some(kind), Some(direction), Some(times)) => {
            let action = Action {
                kind: if times > WALK_LIMIT && matches!(kind, ActionKind::Walk) {
                    ActionKind::Run
                } else {
                    kind
                },
                direction,
            };
            let ghost asked = command_actions(words);
            let mut i: usize = 0;
            while i < times
                invariant
                    0 <= i <= times,
                    asked.len() == times,
                    forall|k: int| 0 <= k < times ==> #[trigger] asked[k] == action,
                    actions@ == before + asked.subrange(0, i as int),
                decreases times - i,
            {
                actions.push(action);
                assert(actions@ =~= before + asked.subrange(0, i + 1));
                i += 1;
            }
            assert(asked.subrange(0, i as int) =~= asked);
        },
        _ => {},
    }
}

/// Reads the commands of a text: the actions that its lines ask for, line
/// after line.
pub fn parse_commands(text: &Vec<char>) -> (actions: Vec<Action>)
    ensures
        actions@ == actions_of(text@),
{
    let mut actions: Vec<Action> = Vec::new();
    let mut from: usize = 0;
    while from < text.len()
        invariant
            0 <= from <= text@.len(),
            actions_of(text@) == actions@ + actions_from(text@, from as int),
        decreases text@.len() - from,
    {
        let end: usize = find_line_end(text, from);
        let ghost before = actions@;
        read_line(text, from, end, &mut actions);
        let ghost line = command_actions(words_between(text@, from as int, end as int));
        if end >= text.len() {
            assert(actions_from(text@, from as int) == line);
            return actions;
        }
        proof {
            assert(actions_from(text@, from as int) == line + actions_from(text@, end + 1));
            assert(before + (line + actions_from(text@, end + 1)) =~= (before + line)
                + actions_from(text@, end + 1));
        }
        from = end + 1;
    }
    assert(actions@ + Seq::<Action>::empty() =~= actions@);
    actions
}

impl Action {
    pub fn new(kind: ActionKind, direction: ActionDirection) -> (action: Self)
        ensures
            action == (Action { kind, direction }),
    {
        Self { kind, direction }
    }

    /// The actions that the lines of a reply ask for, whatever the case of
    /// its letters, or `None` where they ask for none.
    pub fn from_command_string(commands: &str) -> (asked: Option<Vec<Action>>)
        ensures
            match asked {
                Some(actions) => actions@ == actions_of(uppercase_of(commands@)) && actions@.len()
                    > 0,
                None => actions_of(uppercase_of(commands@)).len() == 0,
            },
    {
        let upper: String = to_uppercase(commands);
        let mut text: Vec<char> = Vec::new();
        let len: usize = upper.as_str().unicode_len();
        let mut i: usize = 0;
        while i < len
            invariant
                0 <= i <= len,
                len == upper@.len(),
                text@ == upper@.subrange(0, i as int),
            decreases len - i,
        {
            text.push(upper.as_str().get_char(i));
            assert(text@ =~= upper@.subrange(0, i + 1));
            i += 1;
        }
        assert(text@ =~= upper@);
        let actions: Vec<Action> = parse_commands(&text);
        if actions.len() == 0 {
            None
        } else {
            Some(actions)
        }
    }

    /// Whether the action moves the character.
    pub open spec fn moves(&self) -> bool {
        self.kind == ActionKind::Walk || self.kind == ActionKind::Run
    }

    /// The tile step of the action: one tile in its direction where it moves
    /// the character, none where the character stands.
    pub fn tile_step(&self) -> (step: (i32, i32))
        ensures
            step == (if !self.moves() {
                (0i32, 0i32)
            } else {
                match self.direction {
                    ActionDirection::Up => (0i32, 1i32),
                    ActionDirection::Down => (0i32, -1i32),
                    ActionDirection::Left => (-1i32, 0i32),
                    ActionDirection::Right => (1i32, 0i32),
                }
            }),
    {
        let norm: i32 = match self.kind {
            ActionKind::Walk => 1,
            ActionKind::Run => 1,
            ActionKind::Stand => 0,
        };
        match self.direction {
            ActionDirection::Up => (0, norm),
            ActionDirection::Down => (0, -norm),
            ActionDirection::Left => (-norm, 0),
            ActionDirection::Right => (norm, 0),
        }
    }

    /// Whether a character on a tile of `level` can do the action: it can
    /// always stand; it can step where the chunk is loaded, onto a tile of
    /// its own level or where there is no tile.
    pub fn is_possible(&self, level: u32, target: StepTarget) -> (possible: bool)
        ensures
            possible == (!self.moves() || match target {
                StepTarget::Unloaded => false,
                StepTarget::Empty => true,
                StepTarget::Tile(there) => there == level,
            }),
    {
        match self.kind {
            ActionKind::Stand => true,
            _ => match target {
                StepTarget::Unloaded => false,
                StepTarget::Empty => true,
                StepTarget::Tile(there) => there == level,
            },
        }
    }
}

} // verus!
