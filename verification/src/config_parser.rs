//! The textual form of a schedule and its parser.

use crate::text::{
    find, first_index, lines, parse_i64, parse_signed, parse_u64, parse_unsigned, rows,
    split_lines, to_chars,
};
use crate::tl::{Color, State, StateView};
use crate::utils::{checked_sum, total};
use vstd::prelude::*;
use vstd::slice::slice_subrange;

verus! {

/// The largest number of fixtures that one schedule may drive.
pub const MAX_NUM_TLS: usize = 4;

/// A schedule: the states in cycle order and the shift of the cycle against the clock.
#[derive(Clone, Debug, PartialEq, Eq)]
pub struct Config {
    pub states: Vec<State>,
    pub offset: i64,
}

/// What a [`Config`] stands for.
pub struct ConfigView {
    pub states: Seq<StateView>,
    pub offset: int,
}

impl View for Config {
    type V = ConfigView;

    open spec fn view(&self) -> ConfigView {
        ConfigView { states: self.states.deep_view(), offset: self.offset as int }
    }
}

/// Every state names the same number of fixtures.
pub open spec fn same_fixture_count(states: Seq<StateView>) -> bool {
    forall|i: int| 0 <= i < states.len() ==> (#[trigger] states[i]).colors.len() == states[0].colors.len()
}

/// No state names more than [`MAX_NUM_TLS`] fixtures.
pub open spec fn within_fixture_limit(states: Seq<StateView>) -> bool {
    forall|i: int| 0 <= i < states.len() ==> (#[trigger] states[i]).colors.len() <= MAX_NUM_TLS
}

impl ConfigView {
    /// One cycle lasts a positive number of seconds that fits an `i64`.
    pub open spec fn cyclic(self) -> bool {
        0 < total(self.states) <= i64::MAX
    }

    /// The schedule can be run: its states agree on the fixtures, which are no more
    /// than [`MAX_NUM_TLS`], and it is cyclic.
    pub open spec fn wf(self) -> bool {
        &&& same_fixture_count(self.states)
        &&& within_fixture_limit(self.states)
        &&& self.cyclic()
    }
}

/// Why a text is no schedule.
#[derive(Clone, Copy, Debug, PartialEq, Eq)]
pub enum ParseError {
    /// A state line holds no space between its colours and its duration.
    MissingSeparator,
    /// A colour code other than `r`, `g` and `y`.
    BadColor(char),
    /// The duration of a state line is no unsigned decimal number, or the durations
    /// add up to more than an `i64` holds.
    BadDuration,
    /// Two state lines name different numbers of fixtures, or more than
    /// [`MAX_NUM_TLS`].
    MismatchedFixtureCount,
    /// The text holds no state line, or no state that lasts at all.
    EmptyConfiguration,
}

/// The colour that a one-character code stands for.
pub open spec fn color_of(code: char) -> Option<Color> {
    match code {
        'r' => Some(Color::Red),
        'g' => Some(Color::Green),
        'y' => Some(Color::Yellow),
        _ => None,
    }
}

impl Color {
    /// The colour that the one-character code `value` stands for.
    pub fn try_from(value: char) -> (r: Result<Color, ParseError>)
        ensures
            r == (match color_of(value) {
                Some(color) => Ok::<Color, ParseError>(color),
                None => Err::<Color, ParseError>(ParseError::BadColor(value)),
            }),
    {
        match value {
            'r' => Ok(Color::Red),
            'g' => Ok(Color::Green),
            'y' => Ok(Color::Yellow),
            _ => Err(ParseError::BadColor(value)),
        }
    }
}

/// `i` is the first position in `codes` that holds no colour code.
pub open spec fn is_first_bad_code(codes: Seq<char>, i: int) -> bool {
    &&& 0 <= i < codes.len()
    &&& color_of(codes[i]) is None
    &&& forall|j: int| 0 <= j < i ==> color_of(#[trigger] codes[j]) is Some
}

/// The colours that a run of codes stands for, or the first character in it that is
/// no code.
pub open spec fn colors_of(codes: Seq<char>) -> Result<Seq<Color>, ParseError> {
    if exists|i: int| is_first_bad_code(codes, i) {
        Err(ParseError::BadColor(codes[choose|i: int| is_first_bad_code(codes, i)]))
    } else {
        Ok(codes.map_values(|code: char| color_of(code)->0))
    }
}

/// What a state line stands for. The line is split at its first space. The duration
/// after the space is judged before the colours in front of it.
pub open spec fn parse_line_spec(line: Seq<char>) -> Result<StateView, ParseError> {
    match first_index(line, ' ') {
        None => Err(ParseError::MissingSeparator),
        Some(at) => match parse_unsigned(line.skip(at + 1)) {
            None => Err(ParseError::BadDuration),
            Some(duration) => match colors_of(line.take(at)) {
                Err(e) => Err(e),
                Ok(colors) => Ok(StateView { colors, duration }),
            },
        },
    }
}

/// Line `i` is the first of `body` that is no state line.
pub open spec fn is_first_bad_line(body: Seq<Seq<char>>, i: int) -> bool {
    &&& 0 <= i < body.len()
    &&& parse_line_spec(body[i]) is Err
    &&& forall|j: int| 0 <= j < i ==> parse_line_spec(#[trigger] body[j]) is Ok
}

/// The states that the lines of `body` stand for, in order, or the error of the first
/// line that is no state line.
pub open spec fn parse_body(body: Seq<Seq<char>>) -> Result<Seq<StateView>, ParseError> {
    if exists|i: int| is_first_bad_line(body, i) {
        Err(parse_line_spec(body[choose|i: int| is_first_bad_line(body, i)])->Err_0)
    } else {
        Ok(body.map_values(|line: Seq<char>| parse_line_spec(line)->Ok_0))
    }
}

/// `ls` without the empty lines at its start.
pub open spec fn skip_blank(ls: Seq<Seq<char>>) -> Seq<Seq<char>>
    decreases ls.len(),
{
    if ls.len() > 0 && ls[0].len() == 0 {
        skip_blank(ls.skip(1))
    } else {
        ls
    }
}

/// The offset that a text declares: its first line where that line is a signed
/// number, else zero.
pub open spec fn declared_offset(ls: Seq<Seq<char>>) -> Option<int> {
    if ls.len() > 0 {
        parse_signed(ls[0])
    } else {
        None
    }
}

/// The lines of a text that must be state lines: all lines but an offset line and the
/// empty lines at the start of what is left.
pub open spec fn body_lines(ls: Seq<Seq<char>>) -> Seq<Seq<char>> {
    if declared_offset(ls) is Some {
        skip_blank(ls.skip(1))
    } else {
        skip_blank(ls)
    }
}

/// The conditions on a schedule as a whole, in the order in which they are judged.
pub open spec fn check_states(states: Seq<StateView>) -> Result<(), ParseError> {
    if states.len() == 0 {
        Err(ParseError::EmptyConfiguration)
    } else if !same_fixture_count(states) || !within_fixture_limit(states) {
        Err(ParseError::MismatchedFixtureCount)
    } else if total(states) == 0 {
        Err(ParseError::EmptyConfiguration)
    } else if total(states) > i64::MAX {
        Err(ParseError::BadDuration)
    } else {
        Ok(())
    }
}

/// The schedule that a text stands for, or why it stands for none.
pub open spec fn parse_config_spec(text: Seq<char>) -> Result<ConfigView, ParseError> {
    let ls = lines(text);
    match parse_body(body_lines(ls)) {
        Err(e) => Err(e),
        Ok(states) => match check_states(states) {
            Err(e) => Err(e),
            Ok(_) => Ok(
                ConfigView {
                    states,
                    offset: match declared_offset(ls) {
                        Some(offset) => offset,
                        None => 0,
                    },
                },
            ),
        },
    }
}

/// Every line of `body` is a state line.
pub open spec fn all_state_lines(body: Seq<Seq<char>>) -> bool {
    forall|i: int| 0 <= i < body.len() ==> parse_line_spec(#[trigger] body[i]) is Ok
}

/// Only one line can be the first that is no state line.
pub proof fn lemma_first_bad_line_unique(body: Seq<Seq<char>>, i: int, j: int)
    requires
        is_first_bad_line(body, i),
        is_first_bad_line(body, j),
    ensures
        i == j,
{
    if i < j {
        assert(parse_line_spec(body[i]) is Ok);
    }
    if j < i {
        assert(parse_line_spec(body[j]) is Ok);
    }
}

/// A text is turned down with the error of its first line that is no state line: a
/// line without a space with `MissingSeparator`; a line whose text after the first
/// space is no unsigned number with `BadDuration`; a line that is sound so far with
/// `BadColor` and the first character before the space that is no colour code.
pub proof fn lemma_rejects_bad_line(text: Seq<char>, i: int)
    requires
        is_first_bad_line(body_lines(lines(text)), i),
    ensures
        ({
            let line = body_lines(lines(text))[i];
            let at = first_index(line, ' ');
            &&& parse_config_spec(text) is Err
            &&& at is None ==> parse_config_spec(text)->Err_0 == ParseError::MissingSeparator
            &&& at is Some && parse_unsigned(line.skip(at->0 + 1)) is None ==> parse_config_spec(
                text,
            )->Err_0 == ParseError::BadDuration
            &&& at is Some && parse_unsigned(line.skip(at->0 + 1)) is Some ==> exists|k: int|
                is_first_bad_code(line.take(at->0), k) && parse_config_spec(text)->Err_0
                    == ParseError::BadColor(line[k])
        }),
{
    let body = body_lines(lines(text));
    let first = choose|k: int| is_first_bad_line(body, k);
    lemma_first_bad_line_unique(body, i, first);
    let line = body[i];
    let at = first_index(line, ' ');
    if at is Some && parse_unsigned(line.skip(at->0 + 1)) is Some {
        let codes = line.take(at->0);
        assert(colors_of(codes) is Err);
        let k = choose|k: int| is_first_bad_code(codes, k);
        assert(is_first_bad_code(codes, k));
        assert(codes[k] == line[k]);
    }
}

/// A text whose lines are all state lines is judged as a whole: it is a schedule
/// where its states pass [`check_states`], and is turned down with the error of
/// [`check_states`] where they do not; its states are those of its lines, in order.
pub proof fn lemma_judged_as_a_whole(text: Seq<char>)
    requires
        all_state_lines(body_lines(lines(text))),
    ensures
        ({
            let body = body_lines(lines(text));
            let states = body.map_values(|line: Seq<char>| parse_line_spec(line)->Ok_0);
            match check_states(states) {
                Ok(_) => parse_config_spec(text) matches Ok(schedule) && schedule.states == states
                    && schedule.wf(),
                Err(e) => parse_config_spec(text) == Err::<ConfigView, ParseError>(e),
            }
        }),
{
    let body = body_lines(lines(text));
    assert forall|k: int| !is_first_bad_line(body, k) by {
        if 0 <= k < body.len() {
            assert(parse_line_spec(body[k]) is Ok);
        }
    }
}

/// A text without a state line is turned down as empty; so is the empty text.
pub proof fn lemma_rejects_empty(text: Seq<char>)
    requires
        body_lines(lines(text)).len() == 0,
    ensures
        parse_config_spec(text) == Err::<ConfigView, ParseError>(ParseError::EmptyConfiguration),
        parse_config_spec(Seq::empty()) == Err::<ConfigView, ParseError>(
            ParseError::EmptyConfiguration,
        ),
{
    lemma_judged_as_a_whole(text);
    let none = Seq::<char>::empty();
    assert(lines(none).len() == 0);
    assert(body_lines(lines(none)).len() == 0);
    lemma_judged_as_a_whole(none);
}

/// A text whose state lines name different numbers of fixtures, or more than
/// [`MAX_NUM_TLS`], is turned down as mismatched.
pub proof fn lemma_rejects_mismatch(text: Seq<char>)
    requires
        all_state_lines(body_lines(lines(text))),
        ({
            let states = body_lines(lines(text)).map_values(
                |line: Seq<char>| parse_line_spec(line)->Ok_0,
            );
            !same_fixture_count(states) || !within_fixture_limit(states)
        }),
    ensures
        parse_config_spec(text) == Err::<ConfigView, ParseError>(
            ParseError::MismatchedFixtureCount,
        ),
{
    lemma_judged_as_a_whole(text);
}

/// A text is a schedule exactly where each of its lines after the offset line and
/// the empty lines that follow it is a state line, and the states pass
/// [`check_states`].
pub proof fn lemma_accepts(text: Seq<char>)
    ensures
        parse_config_spec(text) is Ok <==> ({
            let body = body_lines(lines(text));
            &&& all_state_lines(body)
            &&& check_states(body.map_values(|line: Seq<char>| parse_line_spec(line)->Ok_0)) is Ok
        }),
{
    let body = body_lines(lines(text));
    if all_state_lines(body) {
        lemma_judged_as_a_whole(text);
    } else {
        let bad = choose|i: int| 0 <= i < body.len() && !(parse_line_spec(#[trigger] body[i]) is Ok);
        let first = lemma_first_bad_line_exists(body, bad);
        lemma_rejects_bad_line(text, first);
    }
}

/// Before a line that is no state line there is a first such line.
pub proof fn lemma_first_bad_line_exists(body: Seq<Seq<char>>, bad: int) -> (first: int)
    requires
        0 <= bad < body.len(),
        parse_line_spec(body[bad]) is Err,
    ensures
        is_first_bad_line(body, first),
        first <= bad,
    decreases bad,
{
    if exists|j: int| 0 <= j < bad && parse_line_spec(#[trigger] body[j]) is Err {
        let j = choose|j: int| 0 <= j < bad && parse_line_spec(#[trigger] body[j]) is Err;
        lemma_first_bad_line_exists(body, j)
    } else {
        bad
    }
}

/// What a parse result stands for.
pub open spec fn state_result_view(r: Result<State, ParseError>) -> Result<StateView, ParseError> {
    match r {
        Ok(state) => Ok(state@),
        Err(e) => Err(e),
    }
}

/// What a parse result stands for.
pub open spec fn config_result_view(r: Result<Config, ParseError>) -> Result<
    ConfigView,
    ParseError,
> {
    match r {
        Ok(config) => Ok(config@),
        Err(e) => Err(e),
    }
}

/// The colours that a run of one-character codes stands for.
pub fn parse_colors(codes: &[char]) -> (r: Result<Vec<Color>, ParseError>)
    ensures
        (match r {
            Ok(colors) => colors_of(codes@) == Ok::<Seq<Color>, ParseError>(colors@),
            Err(e) => colors_of(codes@) == Err::<Seq<Color>, ParseError>(e),
        }),
{
    let mut colors: Vec<Color> = Vec::new();
    let mut i: usize = 0;
    while i < codes.len()
        invariant
            i <= codes.len(),
            colors.len() == i,
            forall|j: int| 0 <= j < i ==> color_of(#[trigger] codes@[j]) == Some(colors@[j]),
        decreases codes.len() - i,
    {
        match Color::try_from(codes[i]) {
            Ok(color) => {
                colors.push(color);
            },
            Err(e) => {
                proof {
                    assert(is_first_bad_code(codes@, i as int));
                    let k = choose|k: int| is_first_bad_code(codes@, k);
                    assert(k == i) by {
                        if k < i {
                            assert(color_of(codes@[k]) is Some);
                        }
                        if i < k {
                            assert(color_of(codes@[i as int]) is Some);
                        }
                    }
                }
                return Err(e);
            },
        }
        i = i + 1;
    }
    proof {
        assert forall|k: int| !is_first_bad_code(codes@, k) by {
            if 0 <= k < codes.len() {
                assert(color_of(codes@[k]) is Some);
            }
        }
        assert(colors@ =~= codes@.map_values(|code: char| color_of(code)->0));
    }
    Ok(colors)
}

/// Reads one state line given as characters.
pub fn parse_line_chars(line: &[char]) -> (r: Result<State, ParseError>)
    ensures
        state_result_view(r) == parse_line_spec(line@),
{
    let at = match find(line, ' ') {
        None => {
            return Err(ParseError::MissingSeparator);
        },
        Some(at) => at,
    };
    assert(first_index(line@, ' ') == Some(at as int));
    assert(0 <= at < line.len()) by {
        assert(crate::text::is_first(line@, ' ', at as int));
    }
    let duration = match parse_u64(slice_subrange(line, at + 1, line.len())) {
        None => {
            return Err(ParseError::BadDuration);
        },
        Some(duration) => duration,
    };
    let traffic_lights = parse_colors(slice_subrange(line, 0, at))?;
    Ok(State { traffic_lights_colors: traffic_lights, duration })
}

/// Reads one state line: colour codes, a space, a duration in seconds.
pub fn parse_line(line: &str) -> (r: Result<State, ParseError>)
    ensures
        state_result_view(r) == parse_line_spec(line@),
{
    let chars = to_chars(line);
    parse_line_chars(chars.as_slice())
}

/// Judges a sequence of states as a schedule.
pub fn validate(states: &[State]) -> (r: Result<(), ParseError>)
    ensures
        r == check_states(states.deep_view()),
{
    let ghost views = states.deep_view();
    if states.len() == 0 {
        return Err(ParseError::EmptyConfiguration);
    }
    let number_of_colors = states[0].traffic_lights_colors.len();
    assert(views[0].colors.len() == number_of_colors);
    let mut i: usize = 0;
    while i < states.len()
        invariant
            i <= states.len(),
            views == states.deep_view(),
            views.len() > 0,
            views[0].colors.len() == number_of_colors,
            forall|j: int| 0 <= j < i ==> (#[trigger] views[j]).colors.len() == number_of_colors,
        decreases states.len() - i,
    {
        assert(views[i as int].colors.len() == states[i as int].traffic_lights_colors.len());
        if states[i].traffic_lights_colors.len() != number_of_colors {
            return Err(ParseError::MismatchedFixtureCount);
        }
        i = i + 1;
    }
    assert(same_fixture_count(views));
    if number_of_colors > MAX_NUM_TLS {
        return Err(ParseError::MismatchedFixtureCount);
    }
    assert(within_fixture_limit(views));
    match checked_sum(states) {
        None => Err(ParseError::BadDuration),
        Some(cycle) => if cycle == 0 {
            Err(ParseError::EmptyConfiguration)
        } else {
            Ok(())
        },
    }
}

impl Config {
    /// Whether the schedule can be run.
    pub fn is_valid(&self) -> (r: bool)
        ensures
            r == self@.wf(),
    {
        validate(self.states.as_slice()).is_ok()
    }
}

/// Reads every line of `body` as a state line.
fn parse_states(body: &[Vec<char>]) -> (r: Result<Vec<State>, ParseError>)
    ensures
        (match r {
            Ok(states) => parse_body(rows(body@)) == Ok::<Seq<StateView>, ParseError>(
                states.deep_view(),
            ),
            Err(e) => parse_body(rows(body@)) == Err::<Seq<StateView>, ParseError>(e),
        }),
{
    let ghost ls = rows(body@);
    let mut states: Vec<State> = Vec::new();
    let mut i: usize = 0;
    while i < body.len()
        invariant
            i <= body.len(),
            ls == rows(body@),
            states.len() == i,
            forall|j: int|
                0 <= j < i ==> parse_line_spec(#[trigger] ls[j]) == Ok::<StateView, ParseError>(
                    states@[j]@,
                ),
        decreases body.len() - i,
    {
        assert(ls[i as int] == body@[i as int]@);
        match parse_line_chars(body[i].as_slice()) {
            Ok(state) => {
                states.push(state);
            },
            Err(e) => {
                proof {
                    assert(is_first_bad_line(ls, i as int));
                    let k = choose|k: int| is_first_bad_line(ls, k);
                    assert(k == i) by {
                        if k < i {
                            assert(parse_line_spec(ls[k]) is Ok);
                        }
                        if i < k {
                            assert(parse_line_spec(ls[i as int]) is Ok);
                        }
                    }
                }
                return Err(e);
            },
        }
        i = i + 1;
    }
    proof {
        assert forall|k: int| !is_first_bad_line(ls, k) by {
            if 0 <= k < ls.len() {
                assert(parse_line_spec(ls[k]) is Ok);
            }
        }
        assert(states.deep_view() =~= ls.map_values(|line: Seq<char>| parse_line_spec(line)->Ok_0));
    }
    Ok(states)
}

/// Reads a schedule from its textual form.
///
/// The first line is the offset where it is a signed number. Empty lines before the
/// first state line are passed over. Every line after that is a state line.
pub fn parse_config(config: &str) -> (r: Result<Config, ParseError>)
    ensures
        config_result_view(r) == parse_config_spec(config@),
        r matches Ok(schedule) ==> schedule@.wf(),
{
    let chars = to_chars(config);
    let all = split_lines(chars.as_slice());
    let ghost ls = rows(all@);
    let (offset, mut start): (i64, usize) = if all.len() > 0 {
        assert(ls[0] == all@[0]@);
        match parse_i64(all[0].as_slice()) {
            Some(offset) => (offset, 1),
            None => (0, 0),
        }
    } else {
        (0, 0)
    };
    assert(ls.skip(0) =~= ls);
    while start < all.len() && all[start].len() == 0
        invariant
            start <= all.len(),
            ls == rows(all@),
            skip_blank(ls.skip(start as int)) == body_lines(ls),
        decreases all.len() - start,
    {
        assert(ls.skip(start as int)[0] == all@[start as int]@);
        assert(ls.skip(start as int).skip(1) =~= ls.skip(start + 1));
        start = start + 1;
    }
    proof {
        if start < all.len() {
            assert(ls.skip(start as int)[0] == all@[start as int]@);
        }
        assert(skip_blank(ls.skip(start as int)) == ls.skip(start as int));
    }
    let body = slice_subrange(all.as_slice(), start, all.len());
    assert(rows(body@) =~= ls.skip(start as int));
    let states = parse_states(body)?;
    validate(states.as_slice())?;
    Ok(Config { states, offset })
}

} // verus!
