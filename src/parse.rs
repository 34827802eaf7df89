//! Turning a rider's free-text message into a command.

use vstd::prelude::*;
use crate::text::{
    chars_of, collapse, collapse_chars, copy_range, find_space, is_digit, is_space,
    lemma_collapse_blanks, lemma_collapse_concat, lemma_collapse_first, lemma_collapse_spaces,
    lemma_single_spaced, lemma_space_at, push_all, single_spaced, skip_spaces, space, space_at,
    string_of, trim, trim_chars, trim_start, words, words_from,
};

verus! {

/// A rider's request.
pub enum Command {
    Times(TimesCommand),
    Stops(StopsCommand),
    SettingsClock(SettingsClockCommand),
    Help(HelpCommand),
    Unknown(UnknownCommand),
}

/// Departures from one stop, optionally only for some routes.
pub struct TimesCommand {
    pub stop_number: String,
    /// Empty when every route is wanted.
    pub routes: Vec<String>,
}

/// Stops near a place.
pub struct StopsCommand {
    pub location: String,
}

pub struct SettingsClockCommand;

pub struct HelpCommand;

pub struct UnknownCommand;

/// What a command says, as values.
pub enum CommandView {
    Times { stop_number: Seq<char>, routes: Seq<Seq<char>> },
    Stops { location: Seq<char> },
    SettingsClock,
    Help,
    Unknown,
}

impl View for Command {
    type V = CommandView;

    open spec fn view(&self) -> CommandView {
        match self {
            Command::Times(t) => CommandView::Times {
                stop_number: t.stop_number@,
                routes: t.routes@.map_values(|r: String| r@),
            },
            Command::Stops(s) => CommandView::Stops { location: s.location@ },
            Command::SettingsClock(_) => CommandView::SettingsClock,
            Command::Help(_) => CommandView::Help,
            Command::Unknown(_) => CommandView::Unknown,
        }
    }
}

/// What `str::to_lowercase` makes of a string.
pub uninterp spec fn lowercase_of(s: Seq<char>) -> Seq<char>;

/// Characters that lower-casing leaves alone: ASCII, and no capital letter.
pub open spec fn lower_ascii(s: Seq<char>) -> bool {
    forall|i: int| 0 <= i < s.len() ==> (#[trigger] s[i] <= '\u{7f}' && !('A' <= s[i] <= 'Z'))
}

/// Text made of ASCII characters only.
pub open spec fn is_ascii_text(s: Seq<char>) -> bool {
    forall|i: int| 0 <= i < s.len() ==> #[trigger] s[i] <= '\u{7f}'
}

/// An ASCII capital letter becomes its small letter; every other character stays.
pub open spec fn ascii_lower_char(c: char) -> char {
    if 'A' <= c <= 'Z' {
        ((c as u32) + 32) as char
    } else {
        c
    }
}

/// `s` with its ASCII capitals made small.
pub open spec fn ascii_lower(s: Seq<char>) -> Seq<char> {
    s.map_values(|c: char| ascii_lower_char(c))
}

proof fn lemma_lower_ascii_unchanged(s: Seq<char>)
    requires
        lower_ascii(s),
    ensures
        is_ascii_text(s),
        ascii_lower(s) == s,
{
    assert(ascii_lower(s) =~= s);
}

/// Relies on `str::to_lowercase`: the result depends on the characters alone, and on
/// ASCII text it turns `A`-`Z` into `a`-`z` and keeps every other character.
#[verifier::external_body]
fn lowercase(s: &str) -> (r: String)
    ensures
        r@ == lowercase_of(s@),
        is_ascii_text(s@) ==> r@ == ascii_lower(s@),
{
    s.to_lowercase()
}

pub open spec fn times_word() -> Seq<char> {
    seq!['t', 'i', 'm', 'e', 's', ' ']
}

pub open spec fn stops_word() -> Seq<char> {
    seq!['s', 't', 'o', 'p', 's']
}

pub open spec fn help_word() -> Seq<char> {
    seq!['h', 'e', 'l', 'p']
}

pub open spec fn settings_clock_words() -> Seq<char> {
    seq!['s', 'e', 't', 't', 'i', 'n', 'g', 's', ' ', 'c', 'l', 'o', 'c', 'k']
}

pub open spec fn starts_with(s: Seq<char>, p: Seq<char>) -> bool {
    p.len() <= s.len() && s.subrange(0, p.len() as int) == p
}

/// Five ASCII digits.
pub open spec fn is_stop_number(s: Seq<char>) -> bool {
    s.len() == 5 && forall|i: int| 0 <= i < 5 ==> is_digit(#[trigger] s[i])
}

/// The first word of a message, once its blanks are collapsed and trimmed.
pub open spec fn first_word(input: Seq<char>) -> Seq<char> {
    let t = trim(collapse(input));
    t.subrange(0, space_at(t) as int)
}

/// What follows the first word and the space after it.
pub open spec fn after_first_word(input: Seq<char>) -> Seq<char> {
    let t = trim(collapse(input));
    let k = space_at(t);
    if k < t.len() {
        t.subrange(k as int + 1, t.len() as int)
    } else {
        Seq::empty()
    }
}

/// A message after normalising: blank runs collapsed to one space, trimmed, and the
/// first word lower-cased.
pub open spec fn normalise(input: Seq<char>) -> Seq<char> {
    trim(lowercase_of(first_word(input)) + seq![' '] + after_first_word(input))
}

/// The part of a message after an optional leading `times `.
pub open spec fn times_body(c: Seq<char>) -> Seq<char> {
    if starts_with(c, times_word()) {
        c.subrange(6, c.len() as int)
    } else {
        c
    }
}

/// `s` is empty, or starts with a blank and after its blanks holds no line break.
pub open spec fn blank_then_line(s: Seq<char>) -> bool {
    s.len() == 0 || (is_space(s[0]) && !trim_start(s).contains('\n'))
}

/// The whole message is `(times )?` five digits and, after blanks, a route list.
pub open spec fn matches_times(c: Seq<char>) -> bool {
    let b = times_body(c);
    &&& b.len() >= 5
    &&& is_stop_number(b.subrange(0, 5))
    &&& blank_then_line(b.subrange(5, b.len() as int))
}

/// The whole message is `stops`, blanks, then a place on one line.
pub open spec fn matches_stops(c: Seq<char>) -> bool {
    c.len() > 5 && starts_with(c, stops_word()) && blank_then_line(c.subrange(5, c.len() as int))
}

/// The command that a normalised message asks for; the first pattern that matches wins.
pub open spec fn command_of(c: Seq<char>) -> CommandView {
    if matches_times(c) {
        let b = times_body(c);
        CommandView::Times {
            stop_number: b.subrange(0, 5),
            routes: words(b.subrange(5, b.len() as int)),
        }
    } else if matches_stops(c) {
        CommandView::Stops { location: trim_start(c.subrange(5, c.len() as int)) }
    } else if c == settings_clock_words() {
        CommandView::SettingsClock
    } else if starts_with(c, help_word()) {
        CommandView::Help
    } else {
        CommandView::Unknown
    }
}

fn has_prefix(v: &Vec<char>, p: &Vec<char>) -> (r: bool)
    ensures
        r == starts_with(v@, p@),
{
    if p.len() > v.len() {
        return false;
    }
    let mut i: usize = 0;
    while i < p.len()
        invariant
            p@.len() <= v@.len(),
            i <= p@.len(),
            forall|j: int| 0 <= j < i ==> v@[j] == p@[j],
        decreases p@.len() - i,
    {
        if v[i] != p[i] {
            assert(v@.subrange(0, p@.len() as int)[i as int] != p@[i as int]);
            return false;
        }
        i += 1;
    }
    assert(v@.subrange(0, p@.len() as int) =~= p@);
    true
}

fn has_newline_from(v: &Vec<char>, from: usize) -> (r: bool)
    requires
        from <= v@.len(),
    ensures
        r == v@.subrange(from as int, v@.len() as int).contains('\n'),
{
    let mut i = from;
    while i < v.len()
        invariant
            from <= i <= v@.len(),
            forall|j: int| from <= j < i ==> v@[j] != '\n',
        decreases v@.len() - i,
    {
        if v[i] == '\n' {
            assert(v@.subrange(from as int, v@.len() as int)[i - from] == '\n');
            return true;
        }
        i += 1;
    }
    assert forall|j: int| 0 <= j < v@.len() - from implies v@.subrange(
        from as int,
        v@.len() as int,
    )[j] != '\n' by {
        assert(v@.subrange(from as int, v@.len() as int)[j] == v@[j + from]);
    }
    false
}

/// Whether `v` from `from` on is empty, or a blank and then, after the blanks, one line.
fn blank_then_line_from(v: &Vec<char>, from: usize) -> (r: bool)
    requires
        from <= v@.len(),
    ensures
        r == blank_then_line(v@.subrange(from as int, v@.len() as int)),
{
    if from == v.len() {
        return true;
    }
    if !space(v[from]) {
        return false;
    }
    let k = skip_spaces(v, from);
    !has_newline_from(v, k)
}

/// The normalised form of a message.
fn clean_input(input: &str) -> (r: Vec<char>)
    ensures
        r@ == normalise(input@),
        is_ascii_text(first_word(input@)) ==> lowercase_of(first_word(input@)) == ascii_lower(
            first_word(input@),
        ),
{
    let raw = chars_of(input);
    let collapsed = collapse_chars(&raw);
    let t = trim_chars(&collapsed);
    assert(t@.subrange(0, t@.len() as int) == t@);
    let k = find_space(&t, 0);
    let head = copy_range(&t, 0, k);
    let rest = if k < t.len() {
        copy_range(&t, k + 1, t.len())
    } else {
        Vec::new()
    };
    let head_text = string_of(head.as_slice());
    let lowered = lowercase(head_text.as_str());
    let mut joined = chars_of(lowered.as_str());
    joined.push(' ');
    push_all(&mut joined, &rest);
    assert(joined@ =~= lowercase_of(head@) + seq![' '] + rest@);
    trim_chars(&joined)
}

/// The command in an already normalised message.
fn command_from(c: &Vec<char>) -> (r: Command)
    ensures
        r@ == command_of(c@),
{
    let body_start: usize = if has_prefix(c, &vec!['t', 'i', 'm', 'e', 's', ' ']) {
        6
    } else {
        0
    };
    let ghost b = times_body(c@);
    assert(b == c@.subrange(body_start as int, c@.len() as int));
    let tail = body_start + 5;
    if c.len() >= tail {
        let mut digits = true;
        let mut i = body_start;
        while i < tail
            invariant
                tail == body_start + 5 <= c@.len(),
                body_start <= i <= tail,
                digits == forall|j: int| body_start <= j < i ==> is_digit(#[trigger] c@[j]),
            decreases tail - i,
        {
            if !('0' <= c[i] && c[i] <= '9') {
                digits = false;
            }
            i += 1;
        }
        assert(digits == is_stop_number(b.subrange(0, 5))) by {
            assert forall|j: int| 0 <= j < 5 implies b.subrange(0, 5)[j] == c@[j + body_start] by {}
            if !digits {
                let j = choose|j: int| body_start <= j < body_start + 5 && !is_digit(c@[j]);
                assert(b.subrange(0, 5)[j - body_start] == c@[j]);
            }
        }
        assert(b.subrange(5, b.len() as int) == c@.subrange(tail as int, c@.len() as int));
        if digits && blank_then_line_from(c, tail) {
            let stop_number = string_of(copy_range(c, body_start, tail).as_slice());
            let routes = words_from(c, tail);
            assert(b.subrange(0, 5) == c@.subrange(body_start as int, tail as int));
            assert(matches_times(c@));
            return Command::Times(TimesCommand { stop_number, routes });
        }
    }
    if c.len() > 5 && has_prefix(c, &vec!['s', 't', 'o', 'p', 's']) && blank_then_line_from(c, 5) {
        let k = skip_spaces(c, 5);
        let location = string_of(copy_range(c, k, c.len()).as_slice());
        return Command::Stops(StopsCommand { location });
    }
    let settings = vec!['s', 'e', 't', 't', 'i', 'n', 'g', 's', ' ', 'c', 'l', 'o', 'c', 'k'];
    if c.len() == settings.len() && has_prefix(c, &settings) {
        assert(c@ == c@.subrange(0, c@.len() as int));
        return Command::SettingsClock(SettingsClockCommand);
    }
    if has_prefix(c, &vec!['h', 'e', 'l', 'p']) {
        return Command::Help(HelpCommand);
    }
    Command::Unknown(UnknownCommand)
}

/// Reads the command in a message that is already normalised (see `normalise`).
pub fn parse_normalised_command(input: &str) -> (r: Command)
    ensures
        r@ == command_of(input@),
{
    command_from(&chars_of(input))
}

/// Reads the command in a rider's message. A bare stop number, or one after `times `,
/// asks for all of that stop's departures.
pub fn parse_command(input: &str) -> (r: Command)
    ensures
        r@ == command_of(normalise(input@)),
        is_ascii_text(first_word(input@)) ==> lowercase_of(first_word(input@)) == ascii_lower(
            first_word(input@),
        ),
        is_stop_number(input@) ==> r@ == (CommandView::Times {
            stop_number: input@,
            routes: Seq::empty(),
        }),
        starts_with(input@, times_word()) && is_stop_number(input@.subrange(6, input@.len() as int))
            ==> r@ == (CommandView::Times {
            stop_number: input@.subrange(6, input@.len() as int),
            routes: Seq::empty(),
        }),
        forall|w: Seq<char>, x: Seq<char>, v: Seq<char>|
            #![trigger stops_word() + w + x + v]
            input@ == stops_word() + w + x + v && blank_run(w) && all_blank(v) && solid_ends(x)
                ==> r@ == (CommandView::Stops { location: collapse(x) }),
{
    let c = clean_input(input);
    proof {
        if lower_ascii(first_word(input@)) {
            lemma_lower_ascii_unchanged(first_word(input@));
        }
        assert forall|w: Seq<char>, x: Seq<char>, v: Seq<char>|
            input@ == stops_word() + w + x + v && blank_run(w) && all_blank(v) && solid_ends(
                x,
            ) implies command_of(normalise(input@)) == (CommandView::Stops {
            location: collapse(x),
        }) by {
            lemma_stops_text(input@, w, x, v);
        }
        if is_stop_number(input@) {
            lemma_bare_stop_number(input@);
        }
        if starts_with(input@, times_word()) && is_stop_number(
            input@.subrange(6, input@.len() as int),
        ) {
            lemma_times_stop_number(input@);
        }
    }
    command_from(&c)
}

/// One or more blanks.
pub open spec fn blank_run(w: Seq<char>) -> bool {
    w.len() > 0 && forall|i: int| 0 <= i < w.len() ==> is_space(#[trigger] w[i])
}

/// No character, or only blanks.
pub open spec fn all_blank(v: Seq<char>) -> bool {
    forall|i: int| 0 <= i < v.len() ==> is_space(#[trigger] v[i])
}

/// Text that neither starts nor ends with a blank.
pub open spec fn solid_ends(x: Seq<char>) -> bool {
    x.len() > 0 && !is_space(x[0]) && !is_space(x.last())
}

proof fn lemma_stops_text(s: Seq<char>, w: Seq<char>, x: Seq<char>, v: Seq<char>)
    requires
        s == stops_word() + w + x + v,
        blank_run(w),
        all_blank(v),
        solid_ends(x),
    ensures
        first_word(s) == stops_word(),
        lower_ascii(stops_word()),
        lowercase_of(stops_word()) == stops_word() ==> command_of(normalise(s)) == (
        CommandView::Stops { location: collapse(x) }),
{
    let st = stops_word();
    let cx = collapse(x);
    assert(single_spaced(st));
    lemma_single_spaced(st);
    lemma_collapse_blanks(w);
    lemma_collapse_concat(st, w);
    lemma_collapse_first(x);
    lemma_collapse_spaces(x);
    assert(cx.last() == x.last());
    assert((st + w).last() == w.last());
    lemma_collapse_concat(st + w, x);
    let body = st + seq![' '] + cx;
    assert(body.last() == cx.last());
    assert(collapse(st + w + x) == body);
    if v.len() > 0 {
        assert((st + w + x).last() == x.last());
        lemma_collapse_concat(st + w + x, v);
        lemma_collapse_blanks(v);
        assert(collapse(s) == body.push(' '));
        assert(body.push(' ').drop_last() == body);
    } else {
        assert(s == st + w + x);
    }
    assert(trim_start(body) == body);
    assert(trim(body) == body);
    assert(trim(collapse(s)) == body);
    assert forall|j: int| 0 <= j < 5 implies !is_space(#[trigger] body[j]) by {
        assert(body[j] == st[j]);
    }
    lemma_space_at(body, 5);
    assert(body.subrange(0, 5) =~= st);
    assert(body.subrange(6, body.len() as int) =~= cx);
    assert(st + seq![' '] + cx == body);
    let tail = body.subrange(5, body.len() as int);
    assert(tail.drop_first() =~= cx);
    assert(tail[0] == ' ');
    assert(trim_start(cx) == cx);
    assert(trim_start(tail) == cx);
    assert(!cx.contains('\n')) by {
        if cx.contains('\n') {
            let j = choose|j: int| 0 <= j < cx.len() && cx[j] == '\n';
            assert(is_space(cx[j]));
        }
    }
    assert(body.subrange(0, 6) != times_word()) by {
        assert(body.subrange(0, 6)[0] == 's');
    }
    assert(!is_digit(body[0]));
    assert(body.subrange(0, 5)[0] == body[0]);
    assert(body.subrange(0, 5) =~= stops_word());
}

proof fn lemma_bare_stop_number(s: Seq<char>)
    requires
        is_stop_number(s),
    ensures
        first_word(s) == s,
        after_first_word(s) == Seq::<char>::empty(),
        lower_ascii(s),
        lowercase_of(s) == s ==> command_of(normalise(s)) == (CommandView::Times {
            stop_number: s,
            routes: Seq::empty(),
        }),
{
    assert(single_spaced(s));
    lemma_single_spaced(s);
    lemma_space_at(s, 5);
    assert(s.subrange(0, 5) == s);
    let n = s + seq![' '] + Seq::empty();
    assert(n.drop_last() == s);
    assert(trim(n) == s);
    assert(words(Seq::<char>::empty()) == Seq::<Seq<char>>::empty());
    assert(s.subrange(5, 5) == Seq::<char>::empty());
}

proof fn lemma_times_stop_number(s: Seq<char>)
    requires
        starts_with(s, times_word()),
        is_stop_number(s.subrange(6, s.len() as int)),
    ensures
        first_word(s) == seq!['t', 'i', 'm', 'e', 's'],
        lower_ascii(seq!['t', 'i', 'm', 'e', 's']),
        lowercase_of(seq!['t', 'i', 'm', 'e', 's']) == seq!['t', 'i', 'm', 'e', 's']
            ==> command_of(normalise(s)) == (CommandView::Times {
            stop_number: s.subrange(6, s.len() as int),
            routes: Seq::empty(),
        }),
{
    let d = s.subrange(6, s.len() as int);
    assert(s.subrange(0, 6) == times_word());
    assert forall|i: int| 0 <= i < s.len() implies (i < 6 ==> s[i] == times_word()[i]) && (6 <= i
        ==> s[i] == d[i - 6]) by {
        if i < 6 {
            assert(s.subrange(0, 6)[i] == s[i]);
        }
    }
    assert(single_spaced(s));
    lemma_single_spaced(s);
    lemma_space_at(s, 5);
    assert(s.subrange(0, 5) =~= seq!['t', 'i', 'm', 'e', 's']);
    let n = seq!['t', 'i', 'm', 'e', 's'] + seq![' '] + d;
    assert(n =~= s);
    assert(after_first_word(s) == d);
    assert(d.subrange(0, 5) == d);
    assert(d.subrange(5, 5) == Seq::<char>::empty());
    assert(words(Seq::<char>::empty()) == Seq::<Seq<char>>::empty());
}

} // verus!
