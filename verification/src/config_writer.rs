//! Writing a schedule out as text, and the proof that the text reads back as the
//! schedule.

use crate::config_parser::{
    body_lines, check_states, color_of, declared_offset, is_first_bad_code, is_first_bad_line,
    lemma_first_bad_line_exists, parse_body, parse_config_spec, parse_line_spec, skip_blank,
    Config, ConfigView, ParseError,
};
use crate::text::{
    digit_value, digits_of, is_first, lemma_digits_of, lemma_first_index_found,
    lemma_signed_round_trip, lemma_unsigned_round_trip, lines, signed_text, write_i64, write_u64,
};
use crate::tl::{Color, State, StateView};
use vstd::prelude::*;

verus! {

/// The one-character code of a colour.
pub open spec fn code_of(color: Color) -> char {
    match color {
        Color::Red => 'r',
        Color::Green => 'g',
        Color::Yellow => 'y',
    }
}

/// The state line of a state: its colour codes, a space, its duration.
pub open spec fn line_of(state: StateView) -> Seq<char> {
    state.colors.map_values(|color: Color| code_of(color)) + seq![' '] + digits_of(state.duration)
}

/// The state lines of `states`, each closed by a line feed.
pub open spec fn body_of(states: Seq<StateView>) -> Seq<char>
    decreases states.len(),
{
    if states.len() == 0 {
        Seq::empty()
    } else {
        line_of(states[0]) + seq!['\n'] + body_of(states.skip(1))
    }
}

/// The text of a schedule: the offset on a line of its own, then the state lines.
pub open spec fn text_of(config: ConfigView) -> Seq<char> {
    signed_text(config.offset) + seq!['\n'] + body_of(config.states)
}

/// The offset and the durations of the schedule are such as an `i64` and a `u64` hold.
pub open spec fn representable(config: ConfigView) -> bool {
    &&& i64::MIN <= config.offset <= i64::MAX
    &&& forall|i: int| 0 <= i < config.states.len() ==> (#[trigger] config.states[i]).duration <= u64::MAX
}

/// A line that holds no line feed and does not end in a carriage return, followed by
/// a line feed, is the first line of a text.
pub proof fn lemma_lines_first(line: Seq<char>, rest: Seq<char>)
    requires
        forall|i: int| 0 <= i < line.len() ==> line[i] != '\n',
        line.len() > 0 ==> line.last() != '\r',
    ensures
        lines(line + seq!['\n'] + rest) == seq![line] + lines(rest),
{
    let s = line + seq!['\n'] + rest;
    assert(is_first(s, '\n', line.len() as int));
    lemma_first_index_found(s, '\n', line.len() as int);
    assert(s.take(line.len() as int) =~= line);
    assert(s.skip(line.len() as int + 1) =~= rest);
}

/// A state line holds its one space after the colour codes, and neither a line feed
/// nor a carriage return.
pub proof fn lemma_line_of_shape(state: StateView)
    ensures
        is_first(line_of(state), ' ', state.colors.len() as int),
        forall|i: int| 0 <= i < line_of(state).len() ==> line_of(state)[i] != '\n',
        line_of(state).last() != '\r',
        line_of(state).len() > 0,
{
    let line = line_of(state);
    let codes = state.colors.map_values(|color: Color| code_of(color));
    let digits = digits_of(state.duration);
    lemma_digits_of(state.duration);
    assert forall|i: int| 0 <= i < line.len() implies line[i] != '\n' && (i < codes.len()
        ==> line[i] != ' ') by {
        if i < codes.len() {
            assert(line[i] == code_of(state.colors[i]));
        } else if i > codes.len() {
            assert(line[i] == digits[i - codes.len() - 1]);
            assert(digit_value(digits[i - codes.len() - 1]) is Some);
        }
    }
    assert(line.last() == digits.last());
    assert(digit_value(digits[digits.len() - 1]) is Some);
}

/// A state line reads back as its state.
pub proof fn lemma_line_round_trip(state: StateView)
    requires
        state.duration <= u64::MAX,
    ensures
        parse_line_spec(line_of(state)) == Ok::<StateView, ParseError>(state),
{
    let line = line_of(state);
    let at = state.colors.len() as int;
    let codes = state.colors.map_values(|color: Color| code_of(color));
    lemma_line_of_shape(state);
    lemma_first_index_found(line, ' ', at);
    assert(line.skip(at + 1) =~= digits_of(state.duration));
    lemma_unsigned_round_trip(state.duration);
    assert(line.take(at) =~= codes);
    assert forall|k: int| !is_first_bad_code(codes, k) by {
        if 0 <= k < codes.len() {
            assert(codes[k] == code_of(state.colors[k]));
        }
    }
    assert(codes.map_values(|code: char| color_of(code)->0) =~= state.colors) by {
        assert forall|k: int| 0 <= k < codes.len() implies color_of(codes[k])->0
            == state.colors[k] by {
            assert(codes[k] == code_of(state.colors[k]));
        }
    }
}

/// The lines of written-out states are their state lines.
pub proof fn lemma_lines_of_body(states: Seq<StateView>)
    ensures
        lines(body_of(states)) == states.map_values(|state: StateView| line_of(state)),
    decreases states.len(),
{
    let written = states.map_values(|state: StateView| line_of(state));
    if states.len() == 0 {
        assert(lines(body_of(states)) =~= written);
    } else {
        lemma_line_of_shape(states[0]);
        lemma_lines_first(line_of(states[0]), body_of(states.skip(1)));
        lemma_lines_of_body(states.skip(1));
        assert(seq![line_of(states[0])] + states.skip(1).map_values(
            |state: StateView| line_of(state),
        ) =~= written);
    }
}

/// Round trip: a schedule that can be run, written out, reads back as itself.
pub proof fn lemma_round_trip(config: ConfigView)
    requires
        config.wf(),
        representable(config),
    ensures
        parse_config_spec(text_of(config)) == Ok::<ConfigView, ParseError>(config),
{
    let first = signed_text(config.offset);
    let written = config.states.map_values(|state: StateView| line_of(state));
    // the offset line holds a sign and digits only
    lemma_signed_round_trip(config.offset);
    assert forall|i: int| 0 <= i < first.len() implies first[i] != '\n' && first[i] != '\r' by {
        if config.offset < 0 {
            lemma_digits_of((-config.offset) as nat);
            if i > 0 {
                assert(first[i] == digits_of((-config.offset) as nat)[i - 1]);
                assert(digit_value(digits_of((-config.offset) as nat)[i - 1]) is Some);
            }
        } else {
            lemma_digits_of(config.offset as nat);
            assert(digit_value(first[i]) is Some);
        }
    }
    assert(first.len() > 0) by {
        lemma_digits_of(config.offset as nat);
    }
    lemma_lines_first(first, body_of(config.states));
    lemma_lines_of_body(config.states);
    let ls = lines(text_of(config));
    assert(ls =~= seq![first] + written);
    assert(ls[0] == first);
    assert(declared_offset(ls) == Some(config.offset));
    assert(ls.skip(1) =~= written);
    // the first state line is not empty, so no line is passed over
    if written.len() > 0 {
        lemma_line_of_shape(config.states[0]);
        assert(written[0] == line_of(config.states[0]));
    }
    assert(skip_blank(written) == written);
    assert(body_lines(ls) == written);
    // every line reads back as its state
    assert forall|k: int| 0 <= k < written.len() implies parse_line_spec(#[trigger] written[k])
        == Ok::<StateView, ParseError>(config.states[k]) by {
        lemma_line_round_trip(config.states[k]);
    }
    assert forall|k: int| !is_first_bad_line(written, k) by {
        if 0 <= k < written.len() {
            assert(parse_line_spec(written[k]) is Ok);
        }
    }
    assert(written.map_values(|line: Seq<char>| parse_line_spec(line)->Ok_0) =~= config.states);
}

/// Every text that is a schedule reads, written out again and read again, as the same
/// schedule.
pub proof fn lemma_reparse(text: Seq<char>)
    requires
        parse_config_spec(text) is Ok,
    ensures
        parse_config_spec(text_of(parse_config_spec(text)->Ok_0)) == parse_config_spec(text),
{
    let config = parse_config_spec(text)->Ok_0;
    let ls = lines(text);
    let body = body_lines(ls);
    assert(check_states(config.states) is Ok);
    assert forall|k: int| !is_first_bad_line(body, k) by {
        if is_first_bad_line(body, k) {
            assert(parse_body(body) is Err);
        }
    }
    assert forall|i: int| 0 <= i < config.states.len() implies (#[trigger] config.states[i]).duration
        <= u64::MAX by {
        if parse_line_spec(body[i]) is Err {
            lemma_first_bad_line_exists(body, i);
        }
        assert(config.states[i] == parse_line_spec(body[i])->Ok_0);
    }
    lemma_round_trip(config);
}

/// Writes one state line.
fn write_state(out: &mut String, state: &State)
    ensures
        final(out)@ == old(out)@ + line_of(state@),
{
    let ghost codes = state@.colors.map_values(|color: Color| code_of(color));
    let mut i: usize = 0;
    while i < state.traffic_lights_colors.len()
        invariant
            i <= state.traffic_lights_colors.len(),
            codes == state@.colors.map_values(|color: Color| code_of(color)),
            out@ == old(out)@ + codes.take(i as int),
        decreases state.traffic_lights_colors.len() - i,
    {
        proof {
            reveal_strlit("r");
            reveal_strlit("g");
            reveal_strlit("y");
        }
        let code = match state.traffic_lights_colors[i] {
            Color::Red => "r",
            Color::Green => "g",
            Color::Yellow => "y",
        };
        assert(code@ =~= seq![codes[i as int]]);
        out.append(code);
        assert(out@ =~= old(out)@ + codes.take(i + 1));
        i = i + 1;
    }
    proof {
        reveal_strlit(" ");
        assert(codes.take(i as int) =~= codes);
    }
    out.append(" ");
    write_u64(out, state.duration);
    assert(out@ =~= old(out)@ + line_of(state@));
}

/// Writes a schedule out as text: the offset on the first line, then one line for
/// each state. Where the schedule can be run, the text reads back as the schedule.
pub fn write_config(config: &Config) -> (r: String)
    ensures
        r@ == text_of(config@),
        config@.wf() ==> parse_config_spec(r@) == Ok::<ConfigView, ParseError>(config@),
{
    let ghost states = config@.states;
    let mut out = String::new();
    write_i64(&mut out, config.offset);
    proof {
        reveal_strlit("\n");
    }
    out.append("\n");
    let ghost head = out@;
    assert(head =~= signed_text(config@.offset) + seq!['\n']);
    let mut i: usize = 0;
    assert(states.skip(0) =~= states);
    while i < config.states.len()
        invariant
            i <= config.states.len(),
            states == config@.states,
            out@ + body_of(states.skip(i as int)) == head + body_of(states),
        decreases config.states.len() - i,
    {
        let ghost before = out@;
        assert(states[i as int] == config.states[i as int]@);
        write_state(&mut out, &config.states[i]);
        proof {
            reveal_strlit("\n");
        }
        out.append("\n");
        proof {
            let rest = states.skip(i as int);
            assert(rest[0] == states[i as int]);
            assert(rest.skip(1) =~= states.skip(i + 1));
            assert(out@ + body_of(states.skip(i + 1)) =~= before + body_of(rest));
        }
        i = i + 1;
    }
    proof {
        assert(body_of(states.skip(i as int)) =~= Seq::<char>::empty());
        assert(out@ =~= head + body_of(states));
        if config@.wf() {
            assert(representable(config@)) by {
                assert forall|k: int| 0 <= k < states.len() implies (#[trigger] states[k]).duration
                    <= u64::MAX by {
                    assert(states[k] == config.states[k]@);
                }
            }
            lemma_round_trip(config@);
        }
    }
    out
}

} // verus!
