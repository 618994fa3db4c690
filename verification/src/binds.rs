//! Key names: parsing a key description such as `ctrl-a`, `f10` or `change`
//! into a key code and modifiers, and the internal events bound like keys.
use vstd::prelude::*;

use crate::field::{ascii_digits, digits_value};
use crate::text::{ascii_lower, is_ascii_char, is_ascii_upper, spec_ascii_lower, spec_is_ascii_upper, str_to_chars};

verus! {

/// Synthetic events that are fired internally and that can be bound to
/// actions exactly like a real key press. Each is routed through the keymap
/// as a reserved function key (`F(249)` to `F(255)`) that no terminal emits.
#[derive(Clone, Copy, PartialEq, Eq, Hash, Debug, Structural)]
pub enum SkimEvent {
    /// Fired once, when the event loop starts.
    Start,
    /// Fired when the reader finishes producing items.
    Load,
    /// Fired whenever the query changes.
    Change,
    /// Fired when filtering for the current query completes.
    Result,
    /// Fired when the focused item changes.
    Focus,
    /// Fired when a completed search yields no matches.
    Zero,
    /// Fired when a completed search yields exactly one match.
    One,
}

/// A key, as terminals report it.
#[derive(Clone, Copy, PartialEq, Eq, Hash, Debug, Structural)]
pub enum KeyCode {
    Backspace,
    Enter,
    Left,
    Right,
    Up,
    Down,
    Home,
    End,
    PageUp,
    PageDown,
    Tab,
    BackTab,
    Delete,
    Esc,
    /// A function key.
    F(u8),
    /// A character key.
    Char(char),
}

/// The modifier keys held with a key.
#[derive(Clone, Copy, PartialEq, Eq, Hash, Debug, Structural)]
pub struct KeyModifiers {
    pub shift: bool,
    pub control: bool,
    pub alt: bool,
}

impl KeyModifiers {
    /// No modifier.
    pub fn none() -> (r: Self)
        ensures
            r == (KeyModifiers { shift: false, control: false, alt: false }),
    {
        KeyModifiers { shift: false, control: false, alt: false }
    }
}

/// A key with its modifiers.
#[derive(Clone, Copy, PartialEq, Eq, Hash, Debug, Structural)]
pub struct KeyEvent {
    pub code: KeyCode,
    pub modifiers: KeyModifiers,
}

impl KeyEvent {
    pub fn new(code: KeyCode, modifiers: KeyModifiers) -> (r: Self)
        ensures
            r == (KeyEvent { code, modifiers }),
    {
        KeyEvent { code, modifiers }
    }
}

/// The event a name denotes: `start`, `load`, `change`, `result`, `focus`,
/// `zero`, `one`.
pub open spec fn spec_event_from_name(name: Seq<char>) -> Option<SkimEvent> {
    if name == "start"@ {
        Some(SkimEvent::Start)
    } else if name == "load"@ {
        Some(SkimEvent::Load)
    } else if name == "change"@ {
        Some(SkimEvent::Change)
    } else if name == "result"@ {
        Some(SkimEvent::Result)
    } else if name == "focus"@ {
        Some(SkimEvent::Focus)
    } else if name == "zero"@ {
        Some(SkimEvent::Zero)
    } else if name == "one"@ {
        Some(SkimEvent::One)
    } else {
        None
    }
}

/// The reserved function key of an event.
pub open spec fn spec_event_key_code(e: SkimEvent) -> KeyCode {
    match e {
        SkimEvent::Change => KeyCode::F(255),
        SkimEvent::Start => KeyCode::F(254),
        SkimEvent::Load => KeyCode::F(253),
        SkimEvent::Result => KeyCode::F(252),
        SkimEvent::Focus => KeyCode::F(251),
        SkimEvent::Zero => KeyCode::F(250),
        SkimEvent::One => KeyCode::F(249),
    }
}

/// Whether `s` holds exactly the characters of `lit`.
pub(crate) fn str_is(s: &str, lit: &str) -> (r: bool)
    ensures
        r == (s@ == lit@),
{
    crate::text::str_eq(s, lit)
}

impl SkimEvent {
    /// The reserved key code used to route this event through the keymap.
    pub fn key_code(self) -> (r: KeyCode)
        ensures
            r == spec_event_key_code(self),
    {
        match self {
            SkimEvent::Change => KeyCode::F(255),
            SkimEvent::Start => KeyCode::F(254),
            SkimEvent::Load => KeyCode::F(253),
            SkimEvent::Result => KeyCode::F(252),
            SkimEvent::Focus => KeyCode::F(251),
            SkimEvent::Zero => KeyCode::F(250),
            SkimEvent::One => KeyCode::F(249),
        }
    }

    /// The reserved key event (no modifier) used to route this event through
    /// the keymap.
    pub fn key_event(self) -> (r: KeyEvent)
        ensures
            r == (KeyEvent {
                code: spec_event_key_code(self),
                modifiers: KeyModifiers { shift: false, control: false, alt: false },
            }),
    {
        KeyEvent::new(self.key_code(), KeyModifiers::none())
    }

    /// Parses an event name (`start`, `load`, `change`, ...) into an event;
    /// `None` if the name is not a recognised event.
    pub fn from_name(name: &str) -> (r: Option<Self>)
        ensures
            r == spec_event_from_name(name@),
    {
        proof {
            reveal_strlit("start");
            reveal_strlit("load");
            reveal_strlit("change");
            reveal_strlit("result");
            reveal_strlit("focus");
            reveal_strlit("zero");
            reveal_strlit("one");
        }
        if str_is(name, "start") {
            Some(SkimEvent::Start)
        } else if str_is(name, "load") {
            Some(SkimEvent::Load)
        } else if str_is(name, "change") {
            Some(SkimEvent::Change)
        } else if str_is(name, "result") {
            Some(SkimEvent::Result)
        } else if str_is(name, "focus") {
            Some(SkimEvent::Focus)
        } else if str_is(name, "zero") {
            Some(SkimEvent::Zero)
        } else if str_is(name, "one") {
            Some(SkimEvent::One)
        } else {
            None
        }
    }
}

//------------------------------------------------------------------------------
// Parsing a key

/// Why a key description was refused.
#[derive(Clone, PartialEq, Eq, Debug)]
pub enum KeyParseError {
    /// The description is empty.
    Empty,
    /// A modifier that is not `ctrl`, `alt` or `shift`.
    UnknownModifier(String),
    /// A key name that is not known.
    UnknownKey(String),
}

/// The error as plain values.
pub enum SpecKeyParseError {
    Empty,
    UnknownModifier(Seq<char>),
    UnknownKey(Seq<char>),
}

pub open spec fn key_error_view(e: KeyParseError) -> SpecKeyParseError {
    match e {
        KeyParseError::Empty => SpecKeyParseError::Empty,
        KeyParseError::UnknownModifier(s) => SpecKeyParseError::UnknownModifier(s@),
        KeyParseError::UnknownKey(s) => SpecKeyParseError::UnknownKey(s@),
    }
}

/// The parts of `s` between the separators `c` (`"a--b"` has three parts).
pub open spec fn split_on(s: Seq<char>, c: char) -> Seq<Seq<char>>
    decreases s.len(),
{
    if s.len() == 0 {
        seq![Seq::empty()]
    } else {
        let prev = split_on(s.drop_last(), c);
        if s.last() == c {
            prev.push(Seq::empty())
        } else {
            prev.update(prev.len() - 1, prev.last().push(s.last()))
        }
    }
}

proof fn lemma_split_on_nonempty(s: Seq<char>, c: char)
    ensures
        split_on(s, c).len() >= 1,
    decreases s.len(),
{
    if s.len() > 0 {
        lemma_split_on_nonempty(s.drop_last(), c);
    }
}

/// The modifiers after applying the modifier names `parts[..k]`, or the first
/// name that is not a modifier.
pub open spec fn apply_modifiers(parts: Seq<Seq<char>>, k: int) -> Result<KeyModifiers, Seq<char>>
    decreases k,
{
    if k <= 0 {
        Ok(KeyModifiers { shift: false, control: false, alt: false })
    } else {
        match apply_modifiers(parts, k - 1) {
            Err(e) => Err(e),
            Ok(m) => {
                let p = parts[k - 1];
                if p == "ctrl"@ {
                    Ok(KeyModifiers { control: true, ..m })
                } else if p == "alt"@ {
                    Ok(KeyModifiers { alt: true, ..m })
                } else if p == "shift"@ {
                    Ok(KeyModifiers { shift: true, ..m })
                } else {
                    Err(p)
                }
            },
        }
    }
}

/// What `u8::from_str` gives: an optional `+` and ASCII digits, at most 255.
pub open spec fn spec_parse_u8(t: Seq<char>) -> Option<u8> {
    let ds = if t.len() > 0 && t[0] == '+' {
        t.drop_first()
    } else {
        t
    };
    if ascii_digits(ds) && digits_value(ds) <= 255 {
        Some(digits_value(ds) as u8)
    } else {
        None
    }
}

/// The key a name (without modifiers) denotes.
pub open spec fn named_key(key: Seq<char>) -> Option<KeyCode> {
    if key == "space"@ {
        Some(KeyCode::Char(' '))
    } else if key == "enter"@ {
        Some(KeyCode::Enter)
    } else if key == "bspace"@ || key == "bs"@ {
        Some(KeyCode::Backspace)
    } else if key == "up"@ {
        Some(KeyCode::Up)
    } else if key == "down"@ {
        Some(KeyCode::Down)
    } else if key == "left"@ {
        Some(KeyCode::Left)
    } else if key == "right"@ {
        Some(KeyCode::Right)
    } else if key == "tab"@ {
        Some(KeyCode::Tab)
    } else if key == "btab"@ {
        Some(KeyCode::BackTab)
    } else if key == "esc"@ {
        Some(KeyCode::Esc)
    } else if key == "home"@ {
        Some(KeyCode::Home)
    } else if key == "end"@ {
        Some(KeyCode::End)
    } else if key == "pgup"@ {
        Some(KeyCode::PageUp)
    } else if key == "pgdown"@ {
        Some(KeyCode::PageDown)
    } else {
        match spec_event_from_name(key) {
            Some(e) => Some(spec_event_key_code(e)),
            None => None,
        }
    }
}

/// What a key description denotes: the parts before the last `-` are
/// modifiers (`ctrl`, `alt`, `shift`); the last part is one ASCII character
/// (an uppercase letter adds `shift` and is taken in lowercase), `f` and a
/// number (a function key), a key name, or an event name.
pub open spec fn spec_parse_key(s: Seq<char>) -> Result<KeyEvent, SpecKeyParseError> {
    if s.len() == 0 {
        Err(SpecKeyParseError::Empty)
    } else {
        let parts = split_on(s, '-');
        let key = parts.last();
        match apply_modifiers(parts, parts.len() - 1) {
            Err(p) => Err(SpecKeyParseError::UnknownModifier(p)),
            Ok(mods) => if key.len() == 1 && (key[0] as u32) < 128 {
                let c = key[0];
                if spec_is_ascii_upper(c) {
                    Ok(KeyEvent { code: KeyCode::Char(spec_ascii_lower(c)), modifiers: KeyModifiers { shift: true, ..mods } })
                } else {
                    Ok(KeyEvent { code: KeyCode::Char(c), modifiers: mods })
                }
            } else if key.len() > 0 && key[0] == 'f' && spec_parse_u8(key.drop_first()) is Some {
                Ok(KeyEvent { code: KeyCode::F(spec_parse_u8(key.drop_first())->Some_0), modifiers: mods })
            } else {
                match named_key(key) {
                    Some(code) => Ok(KeyEvent { code, modifiers: mods }),
                    None => Err(SpecKeyParseError::UnknownKey(key)),
                }
            },
        }
    }
}

/// The result as plain values.
pub open spec fn key_result_view(r: Result<KeyEvent, KeyParseError>) -> Result<KeyEvent, SpecKeyParseError> {
    match r {
        Ok(k) => Ok(k),
        Err(e) => Err(key_error_view(e)),
    }
}

/// Cuts `cs` at each `c`.
pub(crate) fn split_chars(cs: &Vec<char>, c: char) -> (r: Vec<String>)
    ensures
        r@.len() == split_on(cs@, c).len(),
        forall|i: int| 0 <= i < r@.len() ==> (#[trigger] r@[i])@ == split_on(cs@, c)[i],
{
    let mut parts: Vec<String> = Vec::new();
    let mut cur = String::new();
    let mut i: usize = 0;
    while i < cs.len()
        invariant
            i <= cs@.len(),
            parts@.len() + 1 == split_on(cs@.take(i as int), c).len(),
            forall|q: int| 0 <= q < parts@.len() ==> (#[trigger] parts@[q])@ == split_on(cs@.take(i as int), c)[q],
            cur@ == split_on(cs@.take(i as int), c).last(),
        decreases cs@.len() - i,
    {
        proof {
            assert(cs@.take(i + 1).drop_last() =~= cs@.take(i as int));
            lemma_split_on_nonempty(cs@.take(i as int), c);
        }
        if cs[i] == c {
            let done = cur;
            parts.push(done);
            cur = String::new();
        } else {
            crate::text::string_push(&mut cur, cs[i]);
        }
        i += 1;
    }
    proof {
        assert(cs@.take(cs@.len() as int) =~= cs@);
    }
    parts.push(cur);
    parts
}

/// Reads a `u8` as `u8::from_str` does.
pub(crate) fn parse_u8(cs: &Vec<char>, lo: usize) -> (r: Option<u8>)
    requires
        lo <= cs@.len(),
    ensures
        r == spec_parse_u8(cs@.skip(lo as int)),
{
    let ghost t = cs@.skip(lo as int);
    let plus = lo < cs.len() && cs[lo] == '+';
    let start = if plus {
        lo + 1
    } else {
        lo
    };
    let ghost ds = cs@.skip(start as int);
    proof {
        if plus {
            assert(t.drop_first() =~= ds);
        } else {
            assert(t =~= ds);
        }
    }
    if start >= cs.len() {
        return None;
    }
    let mut v: u32 = 0;
    let mut i = start;
    while i < cs.len()
        invariant
            start <= i <= cs@.len(),
            start < cs@.len(),
            ds == cs@.skip(start as int),
            t == cs@.skip(lo as int),
            lo <= start,
            plus == (lo < cs@.len() && cs@[lo as int] == '+'),
            start == if plus { lo + 1 } else { lo as int },
            plus ==> t.drop_first() == ds,
            !plus ==> t == ds,
            forall|q: int| start <= q < i ==> '0' <= #[trigger] cs@[q] <= '9',
            v == digits_value(cs@.subrange(start as int, i as int)),
            v <= 255,
        decreases cs@.len() - i,
    {
        let c = cs[i];
        if !('0' <= c && c <= '9') {
            proof {
                assert(ds[i - start] == c);
            }
            return None;
        }
        let d = (c as u32) - ('0' as u32);
        proof {
            assert(cs@.subrange(start as int, i + 1).drop_last() =~= cs@.subrange(start as int, i as int));
        }
        if v * 10 + d > 255 {
            proof {
                assert(cs@.subrange(start as int, i + 1) =~= ds.take(i + 1 - start));
                crate::field::lemma_digits_value_mono(ds, i + 1 - start);
            }
            return None;
        }
        v = v * 10 + d;
        i += 1;
    }
    proof {
        assert(cs@.subrange(start as int, cs@.len() as int) =~= ds);
    }
    Some(v as u8)
}

/// The key a name denotes.
fn named_key_of(key: &str) -> (r: Option<KeyCode>)
    ensures
        r == named_key(key@),
{
    proof {
        reveal_strlit("space");
        reveal_strlit("enter");
        reveal_strlit("bspace");
        reveal_strlit("bs");
        reveal_strlit("up");
        reveal_strlit("down");
        reveal_strlit("left");
        reveal_strlit("right");
        reveal_strlit("tab");
        reveal_strlit("btab");
        reveal_strlit("esc");
        reveal_strlit("home");
        reveal_strlit("end");
        reveal_strlit("pgup");
        reveal_strlit("pgdown");
    }
    if str_is(key, "space") {
        Some(KeyCode::Char(' '))
    } else if str_is(key, "enter") {
        Some(KeyCode::Enter)
    } else if str_is(key, "bspace") || str_is(key, "bs") {
        Some(KeyCode::Backspace)
    } else if str_is(key, "up") {
        Some(KeyCode::Up)
    } else if str_is(key, "down") {
        Some(KeyCode::Down)
    } else if str_is(key, "left") {
        Some(KeyCode::Left)
    } else if str_is(key, "right") {
        Some(KeyCode::Right)
    } else if str_is(key, "tab") {
        Some(KeyCode::Tab)
    } else if str_is(key, "btab") {
        Some(KeyCode::BackTab)
    } else if str_is(key, "esc") {
        Some(KeyCode::Esc)
    } else if str_is(key, "home") {
        Some(KeyCode::Home)
    } else if str_is(key, "end") {
        Some(KeyCode::End)
    } else if str_is(key, "pgup") {
        Some(KeyCode::PageUp)
    } else if str_is(key, "pgdown") {
        Some(KeyCode::PageDown)
    } else {
        match SkimEvent::from_name(key) {
            Some(event) => Some(event.key_code()),
            None => None,
        }
    }
}

/// Parses a key description into a key event.
///
/// In addition to keyboard names, accepts the names of the internal events:
/// `change`, `start`, `load`, `result`, `focus`, `zero` and `one`.
///
/// # Errors
/// Returns an error if the description is empty, contains an unknown
/// modifier, or does not correspond to a recognised key name.
pub fn parse_key(key: &str) -> (r: Result<KeyEvent, KeyParseError>)
    ensures
        key_result_view(r) == spec_parse_key(key@),
{
    let cs = str_to_chars(key);
    if cs.len() == 0 {
        return Err(KeyParseError::Empty);
    }
    let parts = split_chars(&cs, '-');
    proof {
        lemma_split_on_nonempty(key@, '-');
    }
    let n = parts.len();
    let mut mods = KeyModifiers::none();
    let mut k: usize = 0;
    while k + 1 < n
        invariant
            n == parts@.len(),
            n == split_on(key@, '-').len(),
            forall|i: int| 0 <= i < parts@.len() ==> (#[trigger] parts@[i])@ == split_on(key@, '-')[i],
            k + 1 <= n,
            apply_modifiers(split_on(key@, '-'), k as int) == Ok::<KeyModifiers, Seq<char>>(mods),
        decreases n - k,
    {
        proof {
            reveal_strlit("ctrl");
            reveal_strlit("alt");
            reveal_strlit("shift");
        }
        let p = parts[k].as_str();
        if str_is(p, "ctrl") {
            mods.control = true;
        } else if str_is(p, "alt") {
            mods.alt = true;
        } else if str_is(p, "shift") {
            mods.shift = true;
        } else {
            proof {
                lemma_modifier_error_stays(split_on(key@, '-'), k + 1, (n - 1) as int);
            }
            return Err(KeyParseError::UnknownModifier(p.to_owned()));
        }
        k += 1;
    }
    let last = parts[n - 1].as_str();
    let kc = str_to_chars(last);
    if kc.len() == 1 && is_ascii_char(kc[0]) {
        let c = kc[0];
        if is_ascii_upper(c) {
            mods.shift = true;
            return Ok(KeyEvent::new(KeyCode::Char(ascii_lower(c)), mods));
        } else {
            return Ok(KeyEvent::new(KeyCode::Char(c), mods));
        }
    }
    if kc.len() > 0 && kc[0] == 'f' {
        proof {
            assert(kc@.skip(1) =~= kc@.drop_first());
        }
        match parse_u8(&kc, 1) {
            Some(f) => {
                return Ok(KeyEvent::new(KeyCode::F(f), mods));
            },
            None => {},
        }
    }
    match named_key_of(last) {
        Some(code) => Ok(KeyEvent::new(code, mods)),
        None => Err(KeyParseError::UnknownKey(last.to_owned())),
    }
}

/// Once a name is not a modifier, applying more names keeps that error.
proof fn lemma_modifier_error_stays(parts: Seq<Seq<char>>, k: int, m: int)
    requires
        1 <= k <= m,
        apply_modifiers(parts, k) is Err,
    ensures
        apply_modifiers(parts, m) == apply_modifiers(parts, k),
    decreases m - k,
{
    if k < m {
        lemma_modifier_error_stays(parts, k, m - 1);
    }
}

// ---------------------------------------------------------------------------
// Action chains
// ---------------------------------------------------------------------------

/// The pieces of `s` cut at each `sep` outside parentheses, with the
/// parenthesis depth at its end (a `)` never takes it below zero).
pub open spec fn top_level_state(s: Seq<char>, sep: char) -> (Seq<Seq<char>>, nat)
    decreases s.len(),
{
    if s.len() == 0 {
        (seq![Seq::empty()], 0)
    } else {
        let (ps, d) = top_level_state(s.drop_last(), sep);
        let c = s.last();
        let grown = ps.update(ps.len() - 1, ps.last().push(c));
        if c == '(' {
            (grown, d + 1)
        } else if c == ')' {
            (grown, if d > 0 {
                (d - 1) as nat
            } else {
                0
            })
        } else if c == sep && d == 0 {
            (ps.push(Seq::empty()), d)
        } else {
            (grown, d)
        }
    }
}

/// The pieces of `s` cut at each `sep` outside parentheses.
pub open spec fn spec_split_top_level(s: Seq<char>, sep: char) -> Seq<Seq<char>> {
    top_level_state(s, sep).0
}

proof fn lemma_top_level_nonempty(s: Seq<char>, sep: char)
    ensures
        top_level_state(s, sep).0.len() >= 1,
    decreases s.len(),
{
    if s.len() > 0 {
        lemma_top_level_nonempty(s.drop_last(), sep);
    }
}

/// Cuts `value` at each `separator` that stands outside parentheses.
pub fn split_top_level(value: &str, separator: char) -> (r: Vec<String>)
    ensures
        crate::display::strings_view(r@) == spec_split_top_level(value@, separator),
{
    let cs = str_to_chars(value);
    let mut parts: Vec<String> = Vec::new();
    let mut cur = String::new();
    let mut depth: usize = 0;
    let mut i: usize = 0;
    while i < cs.len()
        invariant
            cs@ == value@,
            i <= cs@.len(),
            depth <= i,
            depth == top_level_state(cs@.take(i as int), separator).1,
            crate::display::strings_view(parts@).push(cur@) == top_level_state(cs@.take(i as int), separator).0,
        decreases cs@.len() - i,
    {
        let ghost prev = top_level_state(cs@.take(i as int), separator).0;
        proof {
            assert(cs@.take(i + 1).drop_last() =~= cs@.take(i as int));
            lemma_top_level_nonempty(cs@.take(i as int), separator);
        }
        let c = cs[i];
        if c == '(' {
            depth += 1;
            crate::text::string_push(&mut cur, c);
        } else if c == ')' {
            if depth > 0 {
                depth -= 1;
            }
            crate::text::string_push(&mut cur, c);
        } else if c == separator && depth == 0 {
            let done = cur;
            parts.push(done);
            cur = String::new();
        } else {
            crate::text::string_push(&mut cur, c);
        }
        proof {
            assert(crate::display::strings_view(parts@).push(cur@) =~= top_level_state(
                cs@.take(i + 1),
                separator,
            ).0);
        }
        i += 1;
    }
    proof {
        assert(cs@.take(cs@.len() as int) =~= cs@);
    }
    parts.push(cur);
    proof {
        assert(crate::display::strings_view(parts@) =~= spec_split_top_level(value@, separator));
    }
    parts
}

/// `s` starts with `pre`.
pub open spec fn starts_with(s: Seq<char>, pre: Seq<char>) -> bool {
    pre.len() <= s.len() && s.take(pre.len() as int) == pre
}

/// The actions of a chain: the pieces between top-level `+`, where a piece
/// that opens a condition (`if-...`) or a block (ends with `{`) takes the
/// next piece with it.
pub open spec fn join_chain(ps: Seq<Seq<char>>) -> Seq<Seq<char>>
    decreases ps.len(),
{
    if ps.len() == 0 {
        Seq::empty()
    } else {
        let s = ps[0];
        if (starts_with(s, "if-"@) || (s.len() > 0 && s.last() == '{')) && ps.len() >= 2 {
            seq![s + seq!['+'] + ps[1]] + join_chain(ps.skip(2))
        } else {
            seq![s] + join_chain(ps.skip(1))
        }
    }
}

/// The texts of the actions of an action chain, each to be read as one
/// action: the chain is cut at each `+` outside parentheses, and a piece
/// that starts with `if-` or ends with `{` is joined to the piece after it.
pub fn action_chain_parts(action_chain: &str) -> (r: Vec<String>)
    ensures
        crate::display::strings_view(r@) == join_chain(spec_split_top_level(action_chain@, '+')),
{
    let pieces = split_top_level(action_chain, '+');
    let ghost ps = crate::display::strings_view(pieces@);
    let mut out: Vec<String> = Vec::new();
    let mut i: usize = 0;
    proof {
        reveal_strlit("if-");
        assert(ps.skip(0) =~= ps);
    }
    while i < pieces.len()
        invariant
            ps == crate::display::strings_view(pieces@),
            i <= pieces@.len(),
            crate::display::strings_view(out@) + join_chain(ps.skip(i as int)) == join_chain(ps),
        decreases pieces@.len() - i,
    {
        let s = &pieces[i];
        let cs = str_to_chars(s.as_str());
        let opens = starts_with_lit(&cs, "if-") || (cs.len() > 0 && cs[cs.len() - 1] == '{');
        proof {
            assert(ps[i as int] == s@);
            assert(ps.skip(i as int)[0] == s@);
        }
        if opens && i + 1 < pieces.len() {
            let mut joined = s.clone();
            crate::text::string_push(&mut joined, '+');
            crate::text::push_str(&mut joined, pieces[i + 1].as_str());
            proof {
                let t = ps.skip(i as int);
                assert(t.skip(2) =~= ps.skip(i + 2));
                assert(t[1] == ps[i + 1]);
                assert(cs@ == t[0]);
                assert(joined@ == t[0] + seq!['+'] + t[1]);
                assert(join_chain(t) == seq![t[0] + seq!['+'] + t[1]] + join_chain(t.skip(2)));
                assert(crate::display::strings_view(out@.push(joined)) =~= crate::display::strings_view(out@).push(joined@));
                assert(crate::display::strings_view(out@).push(joined@) + join_chain(ps.skip(i + 2)) =~= crate::display::strings_view(out@) + join_chain(t));
            }
            out.push(joined);
            i += 2;
        } else {
            let single = s.clone();
            proof {
                let t = ps.skip(i as int);
                assert(t.skip(1) =~= ps.skip(i + 1));
                assert(cs@ == t[0]);
                assert(single@ == t[0]);
                assert(join_chain(t) == seq![t[0]] + join_chain(t.skip(1)));
                assert(crate::display::strings_view(out@.push(single)) =~= crate::display::strings_view(out@).push(single@));
                assert(crate::display::strings_view(out@).push(single@) + join_chain(ps.skip(i + 1)) =~= crate::display::strings_view(out@) + join_chain(t));
            }
            out.push(single);
            i += 1;
        }
    }
    proof {
        assert(ps.skip(i as int) =~= Seq::<Seq<char>>::empty());
        assert(crate::display::strings_view(out@) + Seq::<Seq<char>>::empty() =~= crate::display::strings_view(out@));
    }
    out
}

/// Whether `cs` starts with the characters of `pre`.
fn starts_with_lit(cs: &Vec<char>, pre: &str) -> (r: bool)
    ensures
        r == starts_with(cs@, pre@),
{
    let pc = str_to_chars(pre);
    if pc.len() > cs.len() {
        return false;
    }
    let mut i: usize = 0;
    while i < pc.len()
        invariant
            pc@ == pre@,
            pc@.len() <= cs@.len(),
            i <= pc@.len(),
            forall|q: int| 0 <= q < i ==> cs@[q] == pc@[q],
        decreases pc@.len() - i,
    {
        if cs[i] != pc[i] {
            proof {
                assert(cs@.take(pre@.len() as int)[i as int] != pre@[i as int]);
            }
            return false;
        }
        i += 1;
    }
    proof {
        assert(cs@.take(pre@.len() as int) =~= pre@);
    }
    true
}

} // verus!
