//! The game's text log: the events of the game described for the player,
//! and debug messages for development.

use vstd::prelude::*;
use vstd::string::StrSliceExecFns;

use crate::util::strings::{decimal, spec_decimal};

verus! {

/// One entry of the log.
#[derive(Clone, Debug)]
pub enum LogData {
    DebugInfo(String),
    DebugWarn(String),
    Plain(String),
    Lore(String),
    PlayerAttackHit { npc_name: String, damage: u16 },
    PlayerAttackHitCritical { npc_name: String, damage: u16 },
    PlayerAttackMiss { npc_name: String },
    PlayerEats { item_name: String },
    NpcAttackHit { npc_name: String, damage: u16 },
    NpcAttackHitCritical { npc_name: String, damage: u16 },
    NpcAttackMiss { npc_name: String },
    NpcDied { npc_name: String },
    ItemPickUp { item_name: String },
    LookAt { name: String },
    LevelUp { new_level: u8 },
    InventoryFull,
    EquipmentSlotEmpty,
    UseStairsDown,
    UseStairsUp,
    NoInteraction,
    TileNotVisible,
    Overdose,
    PlayerHealed { amount: u16 },
    GauntletGreeting,
}

/// Whether an entry is a debug message.
pub open spec fn is_debug(entry: LogData) -> bool {
    entry is DebugInfo || entry is DebugWarn
}

/// The lines of `s` between the newlines, from position `start` on, where
/// the line that began at `start` has been read up to `i`.
pub open spec fn lines_from(s: Seq<char>, start: int, i: int) -> Seq<Seq<char>>
    decreases s.len() - i,
{
    if i >= s.len() {
        seq![s.subrange(start, s.len() as int)]
    } else if s[i] == '\n' {
        seq![s.subrange(start, i)] + lines_from(s, i + 1, i + 1)
    } else {
        lines_from(s, start, i + 1)
    }
}

/// The lines of a text: its pieces between newline characters (a text
/// without newline is one line; an empty text is one empty line).
pub open spec fn text_lines(s: Seq<char>) -> Seq<Seq<char>> {
    lines_from(s, 0, 0)
}

/// Splits a text at its newlines.
pub fn split_lines(message: &str) -> (lines: Vec<String>)
    ensures
        lines@.len() == text_lines(message@).len(),
        forall|k: int| 0 <= k < lines@.len() ==> (#[trigger] lines@[k])@ == text_lines(message@)[k],
{
    let n = message.unicode_len();
    let ghost s = message@;
    let mut lines: Vec<String> = Vec::new();
    let mut start: usize = 0;
    let mut i: usize = 0;
    let ghost mut done: Seq<Seq<char>> = seq![];
    while i < n
        invariant
            n == s.len(),
            s == message@,
            start <= i <= n,
            lines@.len() == done.len(),
            forall|k: int| 0 <= k < lines@.len() ==> (#[trigger] lines@[k])@ == done[k],
            done + lines_from(s, start as int, i as int) == text_lines(s),
        decreases n - i,
    {
        if message.get_char(i) == '\n' {
            let line = message.substring_char(start, i).to_owned();
            lines.push(line);
            proof {
                assert(lines_from(s, start as int, i as int) == seq![s.subrange(start as int, i as int)]
                    + lines_from(s, i + 1, i + 1));
                assert(done.push(s.subrange(start as int, i as int)) + lines_from(s, i + 1, i + 1)
                    == done + lines_from(s, start as int, i as int));
                done = done.push(s.subrange(start as int, i as int));
            }
            start = i + 1;
        }
        i = i + 1;
    }
    let last = message.substring_char(start, n).to_owned();
    lines.push(last);
    proof {
        assert(lines_from(s, start as int, n as int) == seq![s.subrange(start as int, n as int)]);
        done = done.push(s.subrange(start as int, n as int));
        assert(done == text_lines(s));
    }
    lines
}

/// Whether `e` is an entry of the kind numbered `kind` (0: plain text, 1:
/// debug message, 2: debug warning) holding the text `line`.
pub open spec fn text_entry(kind: u8, line: Seq<char>, e: LogData) -> bool {
    if kind == 0 {
        e matches LogData::Plain(t) && t@ == line
    } else if kind == 1 {
        e matches LogData::DebugInfo(t) && t@ == line
    } else {
        e matches LogData::DebugWarn(t) && t@ == line
    }
}

/// Whether `after` is `before` followed by one entry of the given kind per
/// line of `text`.
pub open spec fn appends_text(before: Seq<LogData>, after: Seq<LogData>, text: Seq<char>, kind: u8) -> bool {
    &&& after.len() == before.len() + text_lines(text).len()
    &&& after.take(before.len() as int) == before
    &&& forall|k: int| 0 <= k < text_lines(text).len() ==>
            text_entry(kind, text_lines(text)[k], #[trigger] after[before.len() + k])
}

/// The entries that a sequence of references points to.
pub open spec fn deref_all(refs: Seq<&LogData>) -> Seq<LogData> {
    refs.map_values(|r: &LogData| *r)
}

/// The game's text log.
pub struct Log {
    /// Whether debug messages are shown.
    pub print_debug_info: bool,
    /// Every entry so far, oldest first.
    pub messages: Vec<LogData>,
}

/// The lines of the game's opening lore, in order.
pub open spec fn lore_lines() -> Seq<Seq<char>> {
    seq![
        "..The depths are like an anthill."@,
        "..Dangerous. Ever-twisting. Dark."@,
        "..Those who venture into this forsaken place"@,
        "..place must truly be mad."@,
        "..And if they aren't, the anthill will make them."@,
        "..May you find what you are looking for."@,
    ]
}

impl Log {
    pub fn new(print_debug_info: bool) -> (log: Self)
        ensures
            log.print_debug_info == print_debug_info,
            log.messages@ == Seq::<LogData>::empty(),
    {
        Self { print_debug_info, messages: Vec::new() }
    }

    /// The entries to show: all of them when debug messages are shown,
    /// else every entry but the debug messages, in order.
    pub fn get_messages_for_display(&self) -> (shown: Vec<&LogData>)
        ensures
            self.print_debug_info ==> deref_all(shown@) == self.messages@,
            !self.print_debug_info ==> deref_all(shown@) == self.messages@.filter(|m: LogData| !is_debug(m)),
    {
        let mut shown: Vec<&LogData> = Vec::new();
        let mut i: usize = 0;
        while i < self.messages.len()
            invariant
                i <= self.messages.len(),
                self.print_debug_info ==> deref_all(shown@) == self.messages@.take(i as int),
                !self.print_debug_info ==> deref_all(shown@) == self.messages@.take(i as int).filter(|m: LogData| !is_debug(m)),
            decreases self.messages.len() - i,
        {
            let m = &self.messages[i];
            proof {
                reveal(Seq::filter);
                assert(self.messages@.take(i + 1).drop_last() == self.messages@.take(i as int));
                assert(self.messages@.take(i + 1).last() == self.messages@[i as int]);
            }
            let ghost before = shown@;
            if self.print_debug_info {
                shown.push(m);
                proof { assert(deref_all(shown@) == deref_all(before).push(*m)); }
            } else {
                match m {
                    LogData::DebugInfo(_) => {},
                    LogData::DebugWarn(_) => {},
                    _ => {
                        shown.push(m);
                        proof { assert(deref_all(shown@) == deref_all(before).push(*m)); }
                    },
                }
            }
            i = i + 1;
        }
        proof {
            assert(self.messages@.take(self.messages@.len() as int) == self.messages@);
        }
        shown
    }

    /// Adds an entry to the log. This is the primary way of logging.
    pub fn info(&mut self, log_data: LogData)
        ensures
            final(self).print_debug_info == old(self).print_debug_info,
            final(self).messages@ == old(self).messages@.push(log_data),
    {
        self.messages.push(log_data);
    }

    /// Adds plain text to the log, one entry per line.
    pub fn print(&mut self, message: String)
        ensures
            final(self).print_debug_info == old(self).print_debug_info,
            appends_text(old(self).messages@, final(self).messages@, message@, 0),
    {
        let lines = split_lines(message.as_str());
        self.push_lines(lines, 0);
    }

    /// Adds a debug message to the log, one entry per line.
    pub fn debug_info(&mut self, message: String)
        ensures
            final(self).print_debug_info == old(self).print_debug_info,
            appends_text(old(self).messages@, final(self).messages@, message@, 1),
    {
        let lines = split_lines(message.as_str());
        self.push_lines(lines, 1);
    }

    /// Adds a debug warning to the log, one entry per line.
    pub fn debug_warn(&mut self, message: String)
        ensures
            final(self).print_debug_info == old(self).print_debug_info,
            appends_text(old(self).messages@, final(self).messages@, message@, 2),
    {
        let lines = split_lines(message.as_str());
        self.push_lines(lines, 2);
    }

    /// Pushes each line, as a plain entry (`kind` 0), a debug message
    /// (`kind` 1) or a debug warning (otherwise).
    fn push_lines(&mut self, lines: Vec<String>, kind: u8)
        ensures
            final(self).print_debug_info == old(self).print_debug_info,
            final(self).messages@.len() == old(self).messages@.len() + lines@.len(),
            final(self).messages@.take(old(self).messages@.len() as int) == old(self).messages@,
            forall|k: int| 0 <= k < lines@.len() ==> #[trigger] final(self).messages@[old(self).messages@.len() + k]
                == if kind == 0 { LogData::Plain(lines@[k]) } else if kind == 1 { LogData::DebugInfo(lines@[k]) }
                    else { LogData::DebugWarn(lines@[k]) },
    {
        let ghost base = self.messages@.len();
        let ghost old_messages = self.messages@;
        let mut lines = lines;
        let ghost all = lines@;
        let mut i: usize = 0;
        let n = lines.len();
        while i < n
            invariant
                n == all.len(),
                i <= n,
                lines@ == all.skip(i as int),
                self.print_debug_info == old(self).print_debug_info,
                self.messages@.len() == base + i,
                self.messages@.take(base as int) == old_messages,
                old_messages == old(self).messages@,
                base == old(self).messages@.len(),
                forall|k: int| 0 <= k < i ==> #[trigger] self.messages@[base + k]
                    == if kind == 0 { LogData::Plain(all[k]) } else if kind == 1 { LogData::DebugInfo(all[k]) }
                        else { LogData::DebugWarn(all[k]) },
            decreases n - i,
        {
            let line = lines.remove(0);
            proof {
                assert(line == all[i as int]);
                assert(lines@ == all.skip(i + 1));
            }
            let entry = if kind == 0 { LogData::Plain(line) } else if kind == 1 { LogData::DebugInfo(line) }
                else { LogData::DebugWarn(line) };
            let ghost before = self.messages@;
            self.messages.push(entry);
            proof {
                assert forall|k: int| 0 <= k < i + 1 implies #[trigger] self.messages@[base + k]
                    == if kind == 0 { LogData::Plain(all[k]) } else if kind == 1 { LogData::DebugInfo(all[k]) }
                        else { LogData::DebugWarn(all[k]) } by {
                    if k < i {
                        assert(self.messages@[base + k] == before[base + k]);
                    }
                }
                assert(self.messages@.take(base as int) == before.take(base as int));
            }
            i = i + 1;
        }
    }

    /// Adds the game's opening lore: a plain line that introduces it, then
    /// the six lines of [lore_lines].
    pub fn print_lore(&mut self)
        ensures
            final(self).print_debug_info == old(self).print_debug_info,
            final(self).messages@.len() == old(self).messages@.len() + 7,
            final(self).messages@.take(old(self).messages@.len() as int) == old(self).messages@,
            final(self).messages@[old(self).messages@.len() as int] matches LogData::Plain(t)
                && t@ == "It is written in the books of old:"@,
            forall|k: int| 0 <= k < 6 ==> ((#[trigger] final(self).messages@[old(self).messages@.len() + 1 + k])
                matches LogData::Lore(t) && t@ == lore_lines()[k]),
    {
        self.info(LogData::Plain("It is written in the books of old:".to_owned()));
        self.info(LogData::Lore("..The depths are like an anthill.".to_owned()));
        self.info(LogData::Lore("..Dangerous. Ever-twisting. Dark.".to_owned()));
        self.info(LogData::Lore("..Those who venture into this forsaken place".to_owned()));
        self.info(LogData::Lore("..place must truly be mad.".to_owned()));
        self.info(LogData::Lore("..And if they aren't, the anthill will make them.".to_owned()));
        self.info(LogData::Lore("..May you find what you are looking for.".to_owned()));
    }
}

/// How a piece of a log line is shown.
#[derive(Clone, Copy, Debug, PartialEq, Eq, Structural)]
pub enum Tone {
    /// Ordinary text.
    Plain,
    /// A debug message.
    DebugInfo,
    /// A debug warning.
    DebugWarn,
    /// Slanted text: lore, and the player's own name.
    Italic,
    /// The player ("You").
    You,
    /// The name of an npc.
    Npc,
    /// The name of an item.
    Item,
    /// A number.
    Number,
    /// A title that stands out.
    Title,
}

/// A piece of a log line, shown in one tone.
#[derive(Clone, Debug)]
pub struct LogSpan {
    pub text: String,
    pub tone: Tone,
}

/// A piece of a log line as plain values.
pub open spec fn span_view(s: LogSpan) -> (Seq<char>, Tone) {
    (s.text@, s.tone)
}

/// The pieces of a log line as plain values.
pub open spec fn spans_view(v: Seq<LogSpan>) -> Seq<(Seq<char>, Tone)> {
    v.map_values(|s: LogSpan| span_view(s))
}

/// The text of a number in the log.
pub open spec fn number_text(n: int) -> Seq<char> {
    spec_decimal(n as nat)
}

/// The pieces of the line that shows a log entry.
pub open spec fn spec_spans(e: LogData) -> Seq<(Seq<char>, Tone)> {
    match e {
        LogData::Plain(m) => seq![(m@, Tone::Plain)],
        LogData::DebugInfo(m) => seq![(m@, Tone::DebugInfo)],
        LogData::DebugWarn(m) => seq![(m@, Tone::DebugWarn)],
        LogData::Lore(m) => seq![(m@, Tone::Italic)],
        LogData::PlayerAttackHit { npc_name, damage } => seq![("You"@, Tone::You), (" attack "@, Tone::Plain),
            (npc_name@, Tone::Npc), (" and deal "@, Tone::Plain), (number_text(damage as int), Tone::Number),
            (" damage."@, Tone::Plain)],
        LogData::PlayerAttackHitCritical { npc_name, damage } => seq![("You"@, Tone::You),
            (" critically hit "@, Tone::Plain), (npc_name@, Tone::Npc), (" and deal "@, Tone::Plain),
            (number_text(damage as int), Tone::Number), (" damage."@, Tone::Plain)],
        LogData::PlayerAttackMiss { npc_name } => seq![("You"@, Tone::You), (" attack "@, Tone::Plain),
            (npc_name@, Tone::Npc), (", but miss."@, Tone::Plain)],
        LogData::PlayerEats { item_name } => seq![("You"@, Tone::You), (" eat "@, Tone::Plain),
            (item_name@, Tone::Item)],
        LogData::NpcAttackHit { npc_name, damage } => seq![(npc_name@, Tone::Npc), (" attacks "@, Tone::Plain),
            ("you"@, Tone::You), (" and deals "@, Tone::Plain), (number_text(damage as int), Tone::Number),
            (" damage."@, Tone::Plain)],
        LogData::NpcAttackHitCritical { npc_name, damage } => seq![(npc_name@, Tone::Npc),
            (" critically hits "@, Tone::Plain), ("you"@, Tone::You), (" and deals "@, Tone::Plain),
            (number_text(damage as int), Tone::Number), (" damage."@, Tone::Plain)],
        LogData::NpcAttackMiss { npc_name } => seq![(npc_name@, Tone::Npc), (" attacks "@, Tone::Plain),
            ("you"@, Tone::You), (", but misses."@, Tone::Plain)],
        LogData::NpcDied { npc_name } => seq![(npc_name@, Tone::Npc), (" died."@, Tone::Plain)],
        LogData::ItemPickUp { item_name } => seq![("You"@, Tone::You), (" pick up "@, Tone::Plain),
            (item_name@, Tone::Item)],
        LogData::LookAt { name } => seq![("You see: "@, Tone::Plain), (name@, Tone::Plain)],
        LogData::LevelUp { new_level } => seq![("You"@, Tone::You), (" reached level "@, Tone::Plain),
            (number_text(new_level as int), Tone::Number), ("."@, Tone::Plain)],
        LogData::InventoryFull => seq![("Your inventory is full. Cannot add another item."@, Tone::Plain)],
        LogData::EquipmentSlotEmpty => seq![("The equipment slot is already empty. Cannot unequip."@, Tone::Plain)],
        LogData::UseStairsDown => seq![("You go down the stairs..."@, Tone::Plain)],
        LogData::UseStairsUp => seq![("You go back up the stairs..."@, Tone::Plain)],
        LogData::NoInteraction => seq![("You cannot interact with that object."@, Tone::Plain)],
        LogData::TileNotVisible => seq![("You cannot see that."@, Tone::Plain)],
        LogData::Overdose => seq![("You are experiencing the effects of overdosing."@, Tone::Plain)],
        LogData::PlayerHealed { amount } => seq![("You regain "@, Tone::Plain),
            (number_text(amount as int), Tone::Number), (" hit points."@, Tone::Plain)],
        LogData::GauntletGreeting => seq![("Welcome to the "@, Tone::Italic), ("Gauntlet"@, Tone::Title),
            (". Prove your worth!"@, Tone::Italic)],
    }
}

/// The text of a sequence of pieces, one after the other.
pub open spec fn spans_text(s: Seq<(Seq<char>, Tone)>) -> Seq<char>
    decreases s.len(),
{
    if s.len() == 0 {
        Seq::empty()
    } else {
        spans_text(s.drop_last()) + s.last().0
    }
}

/// The mark in front of a log entry in the log file.
pub open spec fn file_prefix(e: LogData) -> Seq<char> {
    match e {
        LogData::DebugInfo(_) => "[ INFO ] "@,
        LogData::DebugWarn(_) => "[ WARN ] "@,
        _ => "         "@,
    }
}

/// A piece of a log line.
fn piece(text: &str, tone: Tone) -> (s: LogSpan)
    ensures
        span_view(s) == (text@, tone),
{
    LogSpan { text: text.to_owned(), tone }
}

/// A piece of a log line that shows a number.
fn number_piece(n: u64) -> (s: LogSpan)
    ensures
        span_view(s) == (number_text(n as int), Tone::Number),
{
    LogSpan { text: decimal(n), tone: Tone::Number }
}

/// A log line of one piece.
fn line1(a: LogSpan) -> (v: Vec<LogSpan>)
    ensures
        spans_view(v@) == seq![span_view(a)],
{
    let mut v = Vec::new();
    v.push(a);
    assert(spans_view(v@) =~= seq![span_view(a)]);
    v
}

/// A log line of two pieces.
fn line2(a: LogSpan, b: LogSpan) -> (v: Vec<LogSpan>)
    ensures
        spans_view(v@) == seq![span_view(a), span_view(b)],
{
    let mut v = Vec::new();
    v.push(a);
    v.push(b);
    assert(spans_view(v@) =~= seq![span_view(a), span_view(b)]);
    v
}

/// A log line of three pieces.
fn line3(a: LogSpan, b: LogSpan, c: LogSpan) -> (v: Vec<LogSpan>)
    ensures
        spans_view(v@) == seq![span_view(a), span_view(b), span_view(c)],
{
    let mut v = Vec::new();
    v.push(a);
    v.push(b);
    v.push(c);
    assert(spans_view(v@) =~= seq![span_view(a), span_view(b), span_view(c)]);
    v
}

/// A log line of four pieces.
fn line4(a: LogSpan, b: LogSpan, c: LogSpan, d: LogSpan) -> (v: Vec<LogSpan>)
    ensures
        spans_view(v@) == seq![span_view(a), span_view(b), span_view(c), span_view(d)],
{
    let mut v = Vec::new();
    v.push(a);
    v.push(b);
    v.push(c);
    v.push(d);
    assert(spans_view(v@) =~= seq![span_view(a), span_view(b), span_view(c), span_view(d)]);
    v
}

/// A log line of six pieces.
fn line6(a: LogSpan, b: LogSpan, c: LogSpan, d: LogSpan, e: LogSpan, f: LogSpan) -> (v: Vec<LogSpan>)
    ensures
        spans_view(v@) == seq![span_view(a), span_view(b), span_view(c), span_view(d), span_view(e), span_view(f)],
{
    let mut v = Vec::new();
    v.push(a);
    v.push(b);
    v.push(c);
    v.push(d);
    v.push(e);
    v.push(f);
    assert(spans_view(v@) =~= seq![span_view(a), span_view(b), span_view(c), span_view(d), span_view(e), span_view(f)]);
    v
}

impl LogData {
    /// The pieces of the line that shows this entry in the log, each with
    /// the tone it is shown in.
    pub fn spans(&self) -> (v: Vec<LogSpan>)
        ensures
            spans_view(v@) == spec_spans(*self),
    {
        match self {
            LogData::Plain(m) => line1(piece(m.as_str(), Tone::Plain)),
            LogData::DebugInfo(m) => line1(piece(m.as_str(), Tone::DebugInfo)),
            LogData::DebugWarn(m) => line1(piece(m.as_str(), Tone::DebugWarn)),
            LogData::Lore(m) => line1(piece(m.as_str(), Tone::Italic)),
            LogData::PlayerAttackHit { npc_name, damage } => line6(piece("You", Tone::You),
                piece(" attack ", Tone::Plain), piece(npc_name.as_str(), Tone::Npc), piece(" and deal ", Tone::Plain),
                number_piece(*damage as u64), piece(" damage.", Tone::Plain)),
            LogData::PlayerAttackHitCritical { npc_name, damage } => line6(piece("You", Tone::You),
                piece(" critically hit ", Tone::Plain), piece(npc_name.as_str(), Tone::Npc),
                piece(" and deal ", Tone::Plain), number_piece(*damage as u64), piece(" damage.", Tone::Plain)),
            LogData::PlayerAttackMiss { npc_name } => line4(piece("You", Tone::You), piece(" attack ", Tone::Plain),
                piece(npc_name.as_str(), Tone::Npc), piece(", but miss.", Tone::Plain)),
            LogData::PlayerEats { item_name } => line3(piece("You", Tone::You), piece(" eat ", Tone::Plain),
                piece(item_name.as_str(), Tone::Item)),
            LogData::NpcAttackHit { npc_name, damage } => line6(piece(npc_name.as_str(), Tone::Npc),
                piece(" attacks ", Tone::Plain), piece("you", Tone::You), piece(" and deals ", Tone::Plain),
                number_piece(*damage as u64), piece(" damage.", Tone::Plain)),
            LogData::NpcAttackHitCritical { npc_name, damage } => line6(piece(npc_name.as_str(), Tone::Npc),
                piece(" critically hits ", Tone::Plain), piece("you", Tone::You), piece(" and deals ", Tone::Plain),
                number_piece(*damage as u64), piece(" damage.", Tone::Plain)),
            LogData::NpcAttackMiss { npc_name } => line4(piece(npc_name.as_str(), Tone::Npc),
                piece(" attacks ", Tone::Plain), piece("you", Tone::You), piece(", but misses.", Tone::Plain)),
            LogData::NpcDied { npc_name } => line2(piece(npc_name.as_str(), Tone::Npc), piece(" died.", Tone::Plain)),
            LogData::ItemPickUp { item_name } => line3(piece("You", Tone::You), piece(" pick up ", Tone::Plain),
                piece(item_name.as_str(), Tone::Item)),
            LogData::LookAt { name } => line2(piece("You see: ", Tone::Plain), piece(name.as_str(), Tone::Plain)),
            LogData::LevelUp { new_level } => line4(piece("You", Tone::You), piece(" reached level ", Tone::Plain),
                number_piece(*new_level as u64), piece(".", Tone::Plain)),
            LogData::InventoryFull => line1(piece("Your inventory is full. Cannot add another item.", Tone::Plain)),
            LogData::EquipmentSlotEmpty => line1(
                piece("The equipment slot is already empty. Cannot unequip.", Tone::Plain),
            ),
            LogData::UseStairsDown => line1(piece("You go down the stairs...", Tone::Plain)),
            LogData::UseStairsUp => line1(piece("You go back up the stairs...", Tone::Plain)),
            LogData::NoInteraction => line1(piece("You cannot interact with that object.", Tone::Plain)),
            LogData::TileNotVisible => line1(piece("You cannot see that.", Tone::Plain)),
            LogData::Overdose => line1(piece("You are experiencing the effects of overdosing.", Tone::Plain)),
            LogData::PlayerHealed { amount } => line3(piece("You regain ", Tone::Plain),
                number_piece(*amount as u64), piece(" hit points.", Tone::Plain)),
            LogData::GauntletGreeting => line3(piece("Welcome to the ", Tone::Italic), piece("Gauntlet", Tone::Title),
                piece(". Prove your worth!", Tone::Italic)),
        }
    }

    /// The line of this entry in the log file: a mark that tells debug
    /// messages apart, then the text of the entry's pieces.
    pub fn file_line(&self) -> (s: String)
        ensures
            s@ == file_prefix(*self) + spans_text(spec_spans(*self)),
    {
        let pieces = self.spans();
        let mut s = match self {
            LogData::DebugInfo(_) => "[ INFO ] ".to_owned(),
            LogData::DebugWarn(_) => "[ WARN ] ".to_owned(),
            _ => "         ".to_owned(),
        };
        let ghost prefix = s@;
        let mut i: usize = 0;
        while i < pieces.len()
            invariant
                i <= pieces.len(),
                s@ == prefix + spans_text(spans_view(pieces@).take(i as int)),
            decreases pieces.len() - i,
        {
            let ghost done = spans_view(pieces@).take(i as int);
            assert(spans_view(pieces@).take(i + 1) =~= done.push(span_view(pieces@[i as int])));
            assert(spans_text(done.push(span_view(pieces@[i as int]))) == spans_text(done) + pieces@[i as int].text@) by {
                assert(done.push(span_view(pieces@[i as int])).drop_last() =~= done);
            }
            s.append(pieces[i].text.as_str());
            i = i + 1;
        }
        assert(spans_view(pieces@).take(pieces.len() as int) =~= spans_view(pieces@));
        s
    }
}

} // verus!
