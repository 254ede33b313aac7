//! The commands a player can type into the game.

use vstd::prelude::*;

use crate::data::item_defs::{item_defs, spec_item_def, spec_item_def_id, GameItemDefId, ITEM_DEF_COUNT};
use crate::data::npc_defs::{npc_defs, spec_npc_def, spec_npc_def_id, NPC_DEF_COUNT};
use crate::gameplay::game::{GameRules, GameState, GOD_MODE_BITS, NO_CLIP_BITS};
use crate::gameplay::game_items::GameItemId;
use crate::gameplay::inventory::INVENTORY_LIMIT;
use crate::gameplay::player::{
    dodge_fits, dodge_upto, melee_bonus_fits, melee_bonus_upto, ranged_bonus_upto, AbilityScores, PlayerCharacter,
};
use crate::util::rng::{Check, DieSize, Roll};
use crate::util::errors_results::{FailReason, GameError, GameOutcome, GameResult};
use crate::util::text_log::{appends_text, LogData};
use crate::world::tiles::{spec_is_walkable, Collision, Tile};
use crate::util::strings::{
    char_text, decimal, join, join_lines, joined, pad_right, padded, signed_decimal, spec_decimal, spec_signed_decimal,
    lowercase, parse_unsigned, spec_parse_unsigned, spec_words, split_whitespace, str_eq, to_lowercase,
};
use crate::world::coordinate_system::Point;

verus! {

/// A command of the game's command line.
#[derive(Clone, Debug)]
pub enum GameCommand {
    /// Quits the game: `quit` (or `exit`).
    Quit,
    /// Puts items into the player character's inventory: `give <item def id> <amount>`.
    Give { item_def: String, amount: u32 },
    /// Lists the commands: `help`.
    Help,
    /// Gives the player character high statistics: `maxstats`.
    MaxStats,
    /// Gives the player the best equipment: `maxequip`.
    MaxEquip,
    /// Logs the player character's statistics: `playerinfo` (or `pi`).
    PlayerInfo,
    /// Logs a roll and a check: `rngtest`.
    RngTest,
    /// Moves the player character: `teleport <x> <y>`.
    Teleport(Point),
    /// Sets the player character's hit points to zero: `suicide`.
    Suicide,
    /// Shows every tile of the map for a round: `revealall`.
    RevealAll,
    /// Logs what each symbol of the map means: `legend`.
    Legend,
    /// Toggles walking through walls: `noclip`.
    NoClip,
    /// Toggles invulnerability: `godmode`.
    GodMode,
}

/// The name of a command, as `help` lists it.
pub open spec fn spec_command_name(c: GameCommand) -> &'static str {
    match c {
        GameCommand::Quit => "quit",
        GameCommand::Give { .. } => "give",
        GameCommand::Help => "help",
        GameCommand::MaxStats => "maxstats",
        GameCommand::MaxEquip => "maxequip",
        GameCommand::PlayerInfo => "playerinfo",
        GameCommand::RngTest => "rngtest",
        GameCommand::Teleport(_) => "teleport",
        GameCommand::Suicide => "suicide",
        GameCommand::RevealAll => "revealall",
        GameCommand::Legend => "legend",
        GameCommand::NoClip => "noclip",
        GameCommand::GodMode => "godmode",
    }
}

/// The description of a command, as `help` lists it.
pub open spec fn spec_command_description(c: GameCommand) -> &'static str {
    match c {
        GameCommand::Quit => "Quit the game",
        GameCommand::Give { .. } => "Give an item to the player: `give <item def id> <amount>`",
        GameCommand::Help => "List available commands",
        GameCommand::MaxStats => "Grant max stats to player",
        GameCommand::MaxEquip => "Grant the best equipment to the player",
        GameCommand::PlayerInfo => "Print player info to log",
        GameCommand::RngTest => "Make a roll and a check to test the RNG Engine",
        GameCommand::Teleport(_) => "Teleport the player to the given absolute position: `teleport <x> <y>`",
        GameCommand::RevealAll => "Get vision over the entire map for 1 round",
        GameCommand::Suicide => "Set HP to zero to test game over state",
        GameCommand::Legend => "Show list of all map symbols",
        GameCommand::NoClip => "Toggle to walk through impassable terrain",
        GameCommand::GodMode => "Toggle invulnerability",
    }
}

/// The amount a `give` command asks for: its second argument where that
/// reads as a `u32`, else 1.
pub open spec fn give_amount(args: Seq<Seq<char>>) -> u32 {
    if args.len() > 1 && (spec_parse_unsigned(args[1]) matches Some(v) && v <= u32::MAX) {
        spec_parse_unsigned(args[1]).unwrap() as u32
    } else {
        1
    }
}

/// Whether a number that `s` spells fits a `usize`.
pub open spec fn reads_as_usize(s: Seq<char>) -> bool {
    spec_parse_unsigned(s) matches Some(v) && v <= usize::MAX
}

/// Whether `r` is what the command word `command` (already lowercase) with
/// the arguments `args` means.
pub open spec fn command_result(command: Seq<char>, args: Seq<Seq<char>>, r: Result<GameCommand, String>) -> bool {
    if command == "quit"@ || command == "exit"@ {
        r matches Ok(GameCommand::Quit)
    } else if command == "help"@ {
        r matches Ok(GameCommand::Help)
    } else if command == "give"@ {
        if args.len() == 0 {
            r matches Err(e) && e@ == "Missing item name"@
        } else {
            r matches Ok(GameCommand::Give { item_def, amount }) && item_def@ == args[0] && amount == give_amount(args)
        }
    } else if command == "maxstats"@ {
        r matches Ok(GameCommand::MaxStats)
    } else if command == "maxequip"@ {
        r matches Ok(GameCommand::MaxEquip)
    } else if command == "playerinfo"@ || command == "pi"@ {
        r matches Ok(GameCommand::PlayerInfo)
    } else if command == "rngtest"@ {
        r matches Ok(GameCommand::RngTest)
    } else if command == "teleport"@ {
        if args.len() == 0 {
            r matches Err(e) && e@ == "Missing coordinates"@
        } else if !reads_as_usize(args[0]) {
            r matches Err(e) && e@ == "Invalid format for coordinates"@
        } else if args.len() == 1 {
            r matches Err(e) && e@ == "Missing y-coordinate"@
        } else if !reads_as_usize(args[1]) {
            r matches Err(e) && e@ == "Invalid format for y-coordinate"@
        } else {
            r matches Ok(GameCommand::Teleport(p)) && p.x == spec_parse_unsigned(args[0]).unwrap()
                && p.y == spec_parse_unsigned(args[1]).unwrap()
        }
    } else if command == "suicide"@ {
        r matches Ok(GameCommand::Suicide)
    } else if command == "revealall"@ {
        r matches Ok(GameCommand::RevealAll)
    } else if command == "legend"@ {
        r matches Ok(GameCommand::Legend)
    } else if command == "noclip"@ {
        r matches Ok(GameCommand::NoClip)
    } else if command == "godmode"@ {
        r matches Ok(GameCommand::GodMode)
    } else {
        r matches Err(e) && e@ == "Unknown Command "@ + command
    }
}

impl GameCommand {
    /// The description of the command, as `help` lists it.
    pub fn description(&self) -> (s: &'static str)
        ensures
            s == spec_command_description(*self),
    {
        match self {
            GameCommand::Quit => "Quit the game",
            GameCommand::Give { .. } => "Give an item to the player: `give <item def id> <amount>`",
            GameCommand::Help => "List available commands",
            GameCommand::MaxStats => "Grant max stats to player",
            GameCommand::MaxEquip => "Grant the best equipment to the player",
            GameCommand::PlayerInfo => "Print player info to log",
            GameCommand::RngTest => "Make a roll and a check to test the RNG Engine",
            GameCommand::Teleport(_) => "Teleport the player to the given absolute position: `teleport <x> <y>`",
            GameCommand::RevealAll => "Get vision over the entire map for 1 round",
            GameCommand::Suicide => "Set HP to zero to test game over state",
            GameCommand::Legend => "Show list of all map symbols",
            GameCommand::NoClip => "Toggle to walk through impassable terrain",
            GameCommand::GodMode => "Toggle invulnerability",
        }
    }

    /// The name of the command, as `help` lists it.
    pub fn name(&self) -> (s: &'static str)
        ensures
            s == spec_command_name(*self),
    {
        match self {
            GameCommand::Quit => "quit",
            GameCommand::Give { .. } => "give",
            GameCommand::Help => "help",
            GameCommand::MaxStats => "maxstats",
            GameCommand::MaxEquip => "maxequip",
            GameCommand::PlayerInfo => "playerinfo",
            GameCommand::RngTest => "rngtest",
            GameCommand::Teleport(_) => "teleport",
            GameCommand::Suicide => "suicide",
            GameCommand::RevealAll => "revealall",
            GameCommand::Legend => "legend",
            GameCommand::NoClip => "noclip",
            GameCommand::GodMode => "godmode",
        }
    }

    /// Every command, in the order `help` lists them (arguments empty).
    pub fn all() -> (commands: Vec<GameCommand>)
        ensures
            commands@.len() == 13,
            commands@.map_values(|c: GameCommand| spec_command_name(c)@) == seq!["quit"@, "give"@, "help"@,
                "maxstats"@, "maxequip"@, "playerinfo"@, "rngtest"@, "teleport"@, "suicide"@, "revealall"@,
                "legend"@, "noclip"@, "godmode"@],
            commands@.map_values(|c: GameCommand| help_line(c)) == listed_commands().map_values(|c: GameCommand| help_line(c)),
    {
        let commands = vec![
            GameCommand::Quit,
            GameCommand::Give { item_def: String::new(), amount: 0 },
            GameCommand::Help,
            GameCommand::MaxStats,
            GameCommand::MaxEquip,
            GameCommand::PlayerInfo,
            GameCommand::RngTest,
            GameCommand::Teleport(Point::new(0, 0)),
            GameCommand::Suicide,
            GameCommand::RevealAll,
            GameCommand::Legend,
            GameCommand::NoClip,
            GameCommand::GodMode,
        ];
        proof {
            assert(commands@.map_values(|c: GameCommand| spec_command_name(c)@) =~= seq!["quit"@, "give"@, "help"@,
                "maxstats"@, "maxequip"@, "playerinfo"@, "rngtest"@, "teleport"@, "suicide"@, "revealall"@,
                "legend"@, "noclip"@, "godmode"@]);
            let hv = commands@.map_values(|c: GameCommand| help_line(c));
            let lv = listed_commands().map_values(|c: GameCommand| help_line(c));
            assert forall|k: int| 0 <= k < hv.len() implies #[trigger] hv[k] == lv[k] by {
                assert(help_line(commands@[k]) == help_line(listed_commands()[k]));
            }
            assert(hv =~= lv);
        }
        commands
    }

    /// The command that the (lowercase) command word `command` with the
    /// arguments `args` means, or the message why there is none.
    pub fn from_words(command: &str, args: &Vec<String>) -> (r: Result<GameCommand, String>)
        ensures
            command_result(command@, args@.map_values(|w: String| w@), r),
    {
        let ghost a = args@.map_values(|w: String| w@);
        proof {
            reveal_strlit("quit");
            reveal_strlit("exit");
            reveal_strlit("help");
            reveal_strlit("give");
            reveal_strlit("maxstats");
            reveal_strlit("maxequip");
            reveal_strlit("playerinfo");
            reveal_strlit("pi");
            reveal_strlit("rngtest");
            reveal_strlit("teleport");
            reveal_strlit("suicide");
            reveal_strlit("revealall");
            reveal_strlit("legend");
            reveal_strlit("noclip");
            reveal_strlit("godmode");
        }
        if str_eq(command, "quit") || str_eq(command, "exit") {
            Ok(GameCommand::Quit)
        } else if str_eq(command, "help") {
            Ok(GameCommand::Help)
        } else if str_eq(command, "give") {
            if args.len() == 0 {
                return Err("Missing item name".to_owned());
            }
            let item_def = args[0].clone();
            let amount: u32 = if args.len() > 1 {
                match parse_unsigned(args[1].as_str(), 0xffff_ffff) {
                    Some(v) => v as u32,
                    None => 1,
                }
            } else {
                1
            };
            proof {
                assert(a[0] == args@[0]@);
                if args.len() > 1 {
                    assert(a[1] == args@[1]@);
                }
            }
            Ok(GameCommand::Give { item_def, amount })
        } else if str_eq(command, "maxstats") {
            Ok(GameCommand::MaxStats)
        } else if str_eq(command, "maxequip") {
            Ok(GameCommand::MaxEquip)
        } else if str_eq(command, "playerinfo") || str_eq(command, "pi") {
            Ok(GameCommand::PlayerInfo)
        } else if str_eq(command, "rngtest") {
            Ok(GameCommand::RngTest)
        } else if str_eq(command, "teleport") {
            if args.len() == 0 {
                return Err("Missing coordinates".to_owned());
            }
            proof {
                assert(a[0] == args@[0]@);
            }
            let x = match parse_unsigned(args[0].as_str(), usize::MAX as u64) {
                Some(v) => v as usize,
                None => { return Err("Invalid format for coordinates".to_owned()); },
            };
            if args.len() == 1 {
                return Err("Missing y-coordinate".to_owned());
            }
            proof {
                assert(a[1] == args@[1]@);
            }
            let y = match parse_unsigned(args[1].as_str(), usize::MAX as u64) {
                Some(v) => v as usize,
                None => { return Err("Invalid format for y-coordinate".to_owned()); },
            };
            Ok(GameCommand::Teleport(Point { x, y }))
        } else if str_eq(command, "suicide") {
            Ok(GameCommand::Suicide)
        } else if str_eq(command, "revealall") {
            Ok(GameCommand::RevealAll)
        } else if str_eq(command, "legend") {
            Ok(GameCommand::Legend)
        } else if str_eq(command, "noclip") {
            Ok(GameCommand::NoClip)
        } else if str_eq(command, "godmode") {
            Ok(GameCommand::GodMode)
        } else {
            Err(join("Unknown Command ", command))
        }
    }

    /// The command a line of input means: its first word, in lowercase, is
    /// the command, the words after it are its arguments (see
    /// [command_result]). A line without words gives the message
    /// "No command given".
    pub fn try_from(value: String) -> (r: Result<GameCommand, String>)
        ensures
            spec_words(value@).len() == 0 ==> (r matches Err(e) && e@ == "No command given"@),
            spec_words(value@).len() > 0 ==> command_result(lowercase(spec_words(value@)[0]),
                spec_words(value@).drop_first(), r),
            spec_words(value@).len() > 0 && crate::util::strings::ascii_lower(spec_words(value@)[0])
                ==> command_result(spec_words(value@)[0], spec_words(value@).drop_first(), r),
    {
        let mut words = split_whitespace(value.as_str());
        if words.len() == 0 {
            return Err("No command given".to_owned());
        }
        let ghost all = words@;
        let first = words.remove(0);
        let command = to_lowercase(first.as_str());
        proof {
            assert(words@.map_values(|w: String| w@) =~= all.map_values(|w: String| w@).drop_first());
            assert(first@ == all.map_values(|w: String| w@)[0]);
        }
        GameCommand::from_words(command.as_str(), &words)
    }
}

/// Typed alone, the name of a command that takes no arguments means that
/// command, as `help` lists it.
pub proof fn law_command_names_parse_back(c: GameCommand, r: Result<GameCommand, String>)
    requires
        !(c is Give),
        !(c is Teleport),
        command_result(spec_command_name(c)@, Seq::empty(), r),
    ensures
        r matches Ok(d) && spec_command_name(d) == spec_command_name(c),
{
    reveal_strlit("quit");
    reveal_strlit("exit");
    reveal_strlit("help");
    reveal_strlit("give");
    reveal_strlit("maxstats");
    reveal_strlit("maxequip");
    reveal_strlit("playerinfo");
    reveal_strlit("pi");
    reveal_strlit("rngtest");
    reveal_strlit("teleport");
    reveal_strlit("suicide");
    reveal_strlit("revealall");
    reveal_strlit("legend");
    reveal_strlit("noclip");
    reveal_strlit("godmode");
    assert("quit"@.len() == 4 && "quit"@[0] == 'q');
    assert("exit"@.len() == 4 && "exit"@[0] == 'e');
    assert("help"@.len() == 4 && "help"@[0] == 'h');
    assert("give"@.len() == 4 && "give"@[0] == 'g');
    assert("maxstats"@.len() == 8 && "maxstats"@[0] == 'm');
    assert("maxequip"@.len() == 8 && "maxequip"@[0] == 'm');
    assert("playerinfo"@.len() == 10 && "playerinfo"@[0] == 'p');
    assert("pi"@.len() == 2 && "pi"@[0] == 'p');
    assert("rngtest"@.len() == 7 && "rngtest"@[0] == 'r');
    assert("teleport"@.len() == 8 && "teleport"@[0] == 't');
    assert("suicide"@.len() == 7 && "suicide"@[0] == 's');
    assert("revealall"@.len() == 9 && "revealall"@[0] == 'r');
    assert("legend"@.len() == 6 && "legend"@[0] == 'l');
    assert("noclip"@.len() == 6 && "noclip"@[0] == 'n');
    assert("godmode"@.len() == 7 && "godmode"@[0] == 'g');
    assert("maxequip"@[3] != "maxstats"@[3]);
    match c {
        GameCommand::Quit => {},
        GameCommand::Help => {},
        GameCommand::MaxStats => {},
        GameCommand::MaxEquip => {},
        GameCommand::PlayerInfo => {},
        GameCommand::RngTest => {},
        GameCommand::Suicide => {},
        GameCommand::RevealAll => {},
        GameCommand::Legend => {},
        GameCommand::NoClip => {},
        GameCommand::GodMode => {},
        _ => {},
    }
}

} // verus!

verus! {

/// How many of `amount` items fit into an inventory of `len` items.
pub open spec fn items_that_fit(len: int, amount: int) -> int {
    let room = if len < INVENTORY_LIMIT { INVENTORY_LIMIT - len } else { 0 };
    if amount <= room { amount } else { room }
}

/// How many item identifiers `give` of `amount` items may use up: one per
/// item tried, and at most one more than an inventory can hold.
pub open spec fn give_ids_bound(amount: int) -> int {
    if amount <= INVENTORY_LIMIT + 1 { amount } else { INVENTORY_LIMIT + 1 }
}

/// The items that `give` adds to the inventory from `old` to `new` are
/// fresh: not registered before, in increasing order (so each once), and
/// registered under `item_def`; the register gains exactly these and keeps
/// every other entry.
pub open spec fn fresh_items_registered(old: GameState, new: GameState, item_def: Seq<char>) -> bool {
    let n0 = old.player.character.inventory@.len() as int;
    let inv = new.player.character.inventory@;
    &&& forall|k: int| n0 <= k < inv.len() ==> {
            let id = #[trigger] inv[k];
            &&& !old.items@.contains_key(id)
            &&& new.items@.contains_key(id)
            &&& new.items@[id].def_id@ == item_def
        }
    &&& forall|a: int, b: int| n0 <= a < b < inv.len() ==> inv[a] < inv[b]
    &&& forall|id: GameItemId| #[trigger] new.items@.contains_key(id)
            <==> (old.items@.contains_key(id) || exists|k: int| n0 <= k < inv.len() && inv[k] == id)
    &&& forall|id: GameItemId| old.items@.contains_key(id) ==> #[trigger] new.items@[id] == old.items@[id]
}

impl GameState {
    /// Registers items of the kind `item_def` and puts them into the
    /// inventory, `amount` of them or until it is full (then the player is
    /// told, and the item that did not fit is deregistered). Returns how
    /// many were given, or `None` where no item is defined under `item_def`.
    pub fn give_items(&mut self, item_def: &GameItemDefId, amount: u32) -> (given: Option<u32>)
        requires
            old(self).levels_wf(),
            old(self).id_system.next_item() + give_ids_bound(amount as int) <= GameItemId::MAX,
        ensures
            final(self).levels_wf(),
            spec_item_def(item_def@) is None ==> given is None && *final(self) == *old(self),
            spec_item_def(item_def@) is Some ==> {
                let inv = old(self).player.character.inventory@;
                &&& given is Some
                &&& given.unwrap() == items_that_fit(inv.len() as int, amount as int)
                &&& final(self).player.character.inventory@.len() == inv.len() + given.unwrap()
                &&& final(self).player.character.inventory@.take(inv.len() as int) == inv
                &&& fresh_items_registered(*old(self), *final(self), item_def@)
            },
            final(self).levels == old(self).levels,
            final(self).level_nr == old(self).level_nr,
            final(self).player.character.base == old(self).player.character.base,
            final(self).player.character.stats == old(self).player.character.stats,
            final(self).round_nr == old(self).round_nr,
            final(self).id_system.next_item() <= old(self).id_system.next_item() + give_ids_bound(amount as int),
    {
        if self.get_item_def_by_id(item_def).is_none() {
            return None;
        }
        let ghost inv = self.player.character.inventory@;
        let ghost start = *self;
        let mut amount_given: u32 = 0;
        let mut k: u32 = 0;
        while k < amount
            invariant_except_break
                amount_given == k,
                amount_given == items_that_fit(inv.len() as int, k as int),
                self.id_system.next_item() == start.id_system.next_item() + k,
            invariant
                k <= amount,
                amount_given <= k,
                start == *old(self),
                start.id_system.next_item() + give_ids_bound(amount as int) <= GameItemId::MAX,
                self.levels_wf(),
                start.levels_wf(),
                spec_item_def(item_def@) is Some,
                self.player.character.inventory@.len() == inv.len() + amount_given,
                self.player.character.inventory@.take(inv.len() as int) == inv,
                inv == start.player.character.inventory@,
                fresh_items_registered(start, *self, item_def@),
                forall|m: int| inv.len() <= m < self.player.character.inventory@.len()
                    ==> start.id_system.next_item() <= #[trigger] self.player.character.inventory@[m]
                        && self.player.character.inventory@[m] < self.id_system.next_item(),
                self.levels == old(self).levels,
                self.level_nr == old(self).level_nr,
                self.player.character.base == old(self).player.character.base,
                self.player.character.stats == old(self).player.character.stats,
                self.round_nr == old(self).round_nr,
                self.id_system.next_item() <= start.id_system.next_item() + give_ids_bound(amount as int),
            ensures
                amount_given == items_that_fit(inv.len() as int, amount as int),
                self.player.character.inventory@.len() == inv.len() + amount_given,
            decreases amount - k,
        {
            let ghost before = *self;
            let ghost before_inv = self.player.character.inventory@;
            proof {
                assert(k + 1 <= give_ids_bound(amount as int));
            }
            let item_id = match self.register_item(item_def) {
                Ok(id) => id,
                Err(_) => { proof { assert(false); } k = k + 1; continue; },
            };
            let ghost registered = *self;
            proof {
                assert(!before.items@.contains_key(item_id));
            }
            match self.add_item_to_inv(item_id) {
                Ok(GameOutcome::Success) => {
                    amount_given = amount_given + 1;
                    proof {
                        let cur = self.player.character.inventory@;
                        assert(cur == before_inv.push(item_id));
                        assert(cur.take(inv.len() as int) =~= before_inv.take(inv.len() as int));
                        assert forall|m: int| inv.len() <= m < cur.len() implies {
                            let id = #[trigger] cur[m];
                            &&& !start.items@.contains_key(id)
                            &&& self.items@.contains_key(id)
                            &&& self.items@[id].def_id@ == item_def@
                        } by {
                            if m < before_inv.len() {
                                assert(cur[m] == before_inv[m]);
                            } else {
                                assert(cur[m] == item_id);
                            }
                        }
                        assert forall|a: int, b: int| inv.len() <= a < b < cur.len() implies cur[a] < cur[b] by {
                            assert(cur[a] == before_inv[a]);
                            if b < before_inv.len() {
                                assert(cur[b] == before_inv[b]);
                            }
                        }
                        assert forall|id: GameItemId| #[trigger] self.items@.contains_key(id)
                            <==> (start.items@.contains_key(id) || exists|m: int| inv.len() <= m < cur.len() && cur[m] == id) by {
                            if exists|m: int| inv.len() <= m < before_inv.len() && before_inv[m] == id {
                                let m = choose|m: int| inv.len() <= m < before_inv.len() && before_inv[m] == id;
                                assert(cur[m] == id);
                            }
                            if id == item_id {
                                assert(cur[cur.len() - 1] == id);
                            }
                            if exists|m: int| inv.len() <= m < cur.len() && cur[m] == id {
                                let m = choose|m: int| inv.len() <= m < cur.len() && cur[m] == id;
                                if m < before_inv.len() {
                                    assert(before_inv[m] == id);
                                }
                            }
                            assert(registered.items@.dom().contains(id) == before.items@.dom().insert(item_id).contains(id));
                        }
                        assert forall|id: GameItemId| start.items@.contains_key(id) implies #[trigger] self.items@[id] == start.items@[id] by {
                            assert(before.items@.contains_key(id));
                            assert(before.items@[id] == start.items@[id]);
                            assert(registered.items@[id] == before.items@[id]);
                            assert(self.items == registered.items);
                        }
                        assert forall|m: int| inv.len() <= m < cur.len() implies
                            start.id_system.next_item() <= #[trigger] cur[m] && cur[m] < self.id_system.next_item() by {
                            if m < before_inv.len() {
                                assert(cur[m] == before_inv[m]);
                            }
                        }
                    }
                },
                _ => {
                    self.log.info(LogData::InventoryFull);
                    let _ = self.deregister_item(item_id);
                    proof {
                        let cur = self.player.character.inventory@;
                        assert(cur == before_inv);
                        assert(self.items@ == registered.items@.remove(item_id));
                        assert forall|m: int| inv.len() <= m < cur.len() implies {
                            let id = #[trigger] cur[m];
                            &&& !start.items@.contains_key(id)
                            &&& self.items@.contains_key(id)
                            &&& self.items@[id].def_id@ == item_def@
                        } by {
                            assert(cur[m] < item_id);
                        }
                        assert forall|id: GameItemId| #[trigger] self.items@.contains_key(id)
                            <==> (start.items@.contains_key(id) || exists|m: int| inv.len() <= m < cur.len() && cur[m] == id) by {
                            assert(registered.items@.dom().contains(id) == before.items@.dom().insert(item_id).contains(id));
                            if exists|m: int| inv.len() <= m < cur.len() && cur[m] == id {
                                let m = choose|m: int| inv.len() <= m < cur.len() && cur[m] == id;
                                assert(cur[m] < item_id);
                            }
                        }
                        assert forall|id: GameItemId| start.items@.contains_key(id) implies #[trigger] self.items@[id] == start.items@[id] by {
                            assert(before.items@.contains_key(id));
                            assert(before.items@[id] == start.items@[id]);
                            assert(id != item_id);
                            assert(registered.items@[id] == before.items@[id]);
                        }
                    }
                    break;
                },
            }
            k = k + 1;
        }
        Some(amount_given)
    }

    /// Puts the player character on `point`, which must lie in the world
    /// (else the command fails: out of bounds) and be walkable (else it
    /// fails: not walkable).
    pub fn teleport_player(&mut self, point: Point) -> (r: GameResult)
        requires
            old(self).wf(),
        ensures
            !old(self).cur().world.spec_in_bounds(point.x as int, point.y as int) ==>
                r == Ok::<GameOutcome, GameError>(GameOutcome::Fail(FailReason::PointOutOfBounds(point)))
                && *final(self) == *old(self),
            old(self).cur().world.spec_in_bounds(point.x as int, point.y as int)
                && !spec_is_walkable(old(self).cur().world.tile_at(point.x as int, point.y as int).tile_type) ==>
                r == Ok::<GameOutcome, GameError>(GameOutcome::Fail(FailReason::TileNotWalkable(point)))
                && *final(self) == *old(self),
            old(self).cur().world.spec_in_bounds(point.x as int, point.y as int)
                && spec_is_walkable(old(self).cur().world.tile_at(point.x as int, point.y as int).tile_type) ==>
                r == Ok::<GameOutcome, GameError>(GameOutcome::Success)
                && final(self).player.character.base.pos == point
                && *final(self) == (GameState { player: crate::gameplay::player::Player {
                    character: crate::gameplay::player::PlayerCharacter {
                        base: crate::gameplay::entity_logic::EntityBase { pos: point, ..old(self).player.character.base },
                        ..old(self).player.character
                    },
                    ..old(self).player
                }, ..*old(self) }),
            final(self).same_but_player(*old(self)),
            final(self).player.character.stats == old(self).player.character.stats,
            final(self).player.character.active_buffs@ == old(self).player.character.active_buffs@,
            final(self).log == old(self).log,
    {
        if !(point.x < self.current_world().width && point.y < self.current_world().height) {
            return Ok(GameOutcome::Fail(FailReason::PointOutOfBounds(point)));
        }
        proof {
            assert(point.y * 100 + point.x < 2500) by (nonlinear_arith)
                requires point.x < 100, point.y < 25;
        }
        if !self.current_world().get_tile(point).tile_type.is_walkable() {
            return Ok(GameOutcome::Fail(FailReason::TileNotWalkable(point)));
        }
        self.player.character.base.pos = point;
        Ok(GameOutcome::Success)
    }

    /// Gives the player character level 100, 100 in every ability, and 500
    /// hit points.
    pub fn grant_max_stats(&mut self)
        ensures
            final(self).player.character.stats.level == 100,
            final(self).player.character.stats.abilities == (AbilityScores {
                strength: 100, dexterity: 100, vitality: 100, perception: 100 }),
            final(self).player.character.stats.base.hp_max == 500,
            final(self).player.character.stats.base.hp_current == 500,
            final(self).player.character.stats.experience == old(self).player.character.stats.experience,
            final(self).player.character.same_but_stats(old(self).player.character),
            final(self).same_but_player(*old(self)),
            final(self).log == old(self).log,
    {
        self.player.character.stats.level = 100;
        self.player.character.stats.abilities.dexterity = 100;
        self.player.character.stats.abilities.perception = 100;
        self.player.character.stats.abilities.strength = 100;
        self.player.character.stats.abilities.vitality = 100;
        self.player.character.stats.base.hp_max = 500;
        self.player.character.stats.base.hp_current = 500;
    }

    /// Takes all hit points of the player character.
    pub fn set_player_hp_zero(&mut self)
        ensures
            final(self).player.character.stats.base.hp_current == 0,
            final(self).player.character.stats.base.hp_max == old(self).player.character.stats.base.hp_max,
            final(self).player.character.stats.abilities == old(self).player.character.stats.abilities,
            final(self).player.character.same_but_stats(old(self).player.character),
            final(self).same_but_player(*old(self)),
            final(self).log == old(self).log,
    {
        self.player.character.stats.base.hp_current = 0;
    }

    /// Makes every tile of the current level visible and explored.
    pub fn reveal_all(&mut self)
        requires
            old(self).wf(),
        ensures
            final(self).wf(),
            final(self).level_nr == old(self).level_nr,
            final(self).cur().world.tiles@.len() == old(self).cur().world.tiles@.len(),
            forall|k: int| 0 <= k < final(self).cur().world.tiles@.len() ==> {
                let t = #[trigger] final(self).cur().world.tiles@[k];
                &&& t.visible
                &&& t.explored
                &&& t.tile_type == old(self).cur().world.tiles@[k].tile_type
            },
            final(self).cur().npc_map() == old(self).cur().npc_map(),
            final(self).cur().sprite_map() == old(self).cur().sprite_map(),
            final(self).player == old(self).player,
            final(self).round_nr == old(self).round_nr,
            final(self).log == old(self).log,
    {
        let ghost before = *self;
        let level = self.current_level_mut();
        let n = level.world.tiles.len();
        let mut i: usize = 0;
        while i < n
            invariant
                i <= n,
                n == level.world.tiles@.len(),
                level.world.width == before.cur().world.width,
                level.world.height == before.cur().world.height,
                level.npcs == before.cur().npcs,
                level.npc_index == before.cur().npc_index,
                level.item_sprites == before.cur().item_sprites,
                level.item_sprites_index == before.cur().item_sprites_index,
                level.entry == before.cur().entry,
                level.exit == before.cur().exit,
                n == before.cur().world.tiles@.len(),
                forall|k: int| 0 <= k < n ==> (#[trigger] level.world.tiles@[k]).tile_type
                    == before.cur().world.tiles@[k].tile_type,
                forall|k: int| 0 <= k < i ==> (#[trigger] level.world.tiles@[k]).visible && level.world.tiles@[k].explored,
            decreases n - i,
        {
            let t = level.world.tiles[i];
            level.world.tiles.set(i, Tile { visible: true, explored: true, ..t });
            i = i + 1;
        }
        proof {
            let l = self.cur();
            assert(l.world.wf());
            assert(l.npc_map() =~= before.cur().npc_map());
            assert(l.sprite_map() =~= before.cur().sprite_map());
            crate::gameplay::combat::lemma_levels_frame(before, *self);
        }
    }
}

} // verus!

verus! {

/// The commands in the order `help` lists them (arguments play no part in
/// the listing).
pub open spec fn listed_commands() -> Seq<GameCommand> {
    seq![GameCommand::Quit, GameCommand::Give { item_def: arbitrary(), amount: 0 }, GameCommand::Help,
        GameCommand::MaxStats, GameCommand::MaxEquip, GameCommand::PlayerInfo, GameCommand::RngTest,
        GameCommand::Teleport(Point { x: 0, y: 0 }), GameCommand::Suicide, GameCommand::RevealAll, GameCommand::Legend,
        GameCommand::NoClip, GameCommand::GodMode]
}

/// The line that `help` gives a command: its name, padded to twelve
/// characters, and its description.
pub open spec fn help_line(c: GameCommand) -> Seq<char> {
    padded(spec_command_name(c)@, 12) + " - "@ + spec_command_description(c)@
}

/// What `help` logs: one line per command.
pub open spec fn help_text() -> Seq<char> {
    joined(listed_commands().map_values(|c: GameCommand| help_line(c)))
}

/// The legend's line for a symbol.
pub open spec fn legend_line(glyph: char, name: Seq<char>) -> Seq<char> {
    seq![glyph] + " - "@ + name
}

/// What `legend` logs: the player character and the doors, then each item
/// and each npc of the tables, in table order, by their symbol.
pub open spec fn legend_text() -> Seq<char> {
    joined(seq!["@ - Player Character (you)"@, "+ - Door (closed)"@, "_ - Door (open)"@]
        + Seq::new(ITEM_DEF_COUNT as nat, |k: int| legend_line(spec_item_def(spec_item_def_id(k)@).unwrap().glyph,
            spec_item_def(spec_item_def_id(k)@).unwrap().name@))
        + Seq::new(NPC_DEF_COUNT as nat, |k: int| legend_line(spec_npc_def(spec_npc_def_id(k)@).unwrap().glyph,
            spec_npc_def(spec_npc_def_id(k)@).unwrap().name@)))
}

/// What `playerinfo` logs about the player character: name, hit points,
/// position, abilities, dodge chance and damage bonuses.
pub open spec fn player_info_text(c: PlayerCharacter) -> Seq<char> {
    let a = c.stats.abilities;
    let buffs = c.active_buffs@;
    joined(seq![
        "Character \""@ + c.base.name@ + "\""@,
        "-  HP: "@ + spec_decimal(c.stats.base.hp_current as nat) + "/"@ + spec_decimal(c.stats.base.hp_max as nat),
        "-  Position: "@ + position_text(c.base.pos),
        "-  S:"@ + spec_decimal(a.strength as nat) + ", D:"@ + spec_decimal(a.dexterity as nat) + ", V:"@
            + spec_decimal(a.vitality as nat) + ", P:"@ + spec_decimal(a.perception as nat),
        "-  Dodge:"@ + spec_decimal(dodge_upto(a.dexterity, buffs, buffs.len()) as nat) + ", Dmg:"@
            + spec_signed_decimal(melee_bonus_upto(a.strength, buffs, buffs.len())) + "/"@
            + spec_signed_decimal(ranged_bonus_upto(a.perception, buffs, buffs.len())),
    ])
}

/// The text of a truth value.
pub open spec fn bool_text(b: bool) -> Seq<char> {
    if b { "true"@ } else { "false"@ }
}

/// What `rngtest` logs for a roll of 1d6 and a check of 1d20 against 10.
pub open spec fn rng_test_text(roll: int, check: bool) -> Seq<char> {
    joined(seq!["Rolling 1d6: "@ + spec_signed_decimal(roll), "Checking 1d20 against difficulty 10: "@ + bool_text(check)])
}

/// The text of a position in a message.
pub open spec fn position_text(p: Point) -> Seq<char> {
    "x:"@ + spec_decimal(p.x as nat) + " y:"@ + spec_decimal(p.y as nat)
}

/// What `give` logs after items were given.
pub open spec fn added_text(item_def: Seq<char>, amount: u32) -> Seq<char> {
    "Added "@ + item_def + " (x"@ + spec_decimal(amount as nat) + ") to player's inventory"@
}

/// The text of a position in a message.
fn format_position(p: Point) -> (s: String)
    ensures
        s@ == position_text(p),
{
    let mut s = "x:".to_owned();
    s.append(decimal(p.x as u64).as_str());
    s.append(" y:");
    s.append(decimal(p.y as u64).as_str());
    s
}

/// The text of a truth value.
fn format_bool(b: bool) -> (s: &'static str)
    ensures
        s@ == bool_text(b),
{
    if b { "true" } else { "false" }
}

/// What `help` logs.
fn format_help() -> (s: String)
    ensures
        s@ == help_text(),
{
    let commands = GameCommand::all();
    let mut lines: Vec<String> = Vec::new();
    let mut i: usize = 0;
    while i < commands.len()
        invariant
            i <= commands@.len(),
            commands@.map_values(|c: GameCommand| help_line(c)) == listed_commands().map_values(|c: GameCommand| help_line(c)),
            lines@.len() == i,
            forall|k: int| 0 <= k < i ==> (#[trigger] lines@[k])@ == help_line(commands@[k]),
        decreases commands@.len() - i,
    {
        let mut line = pad_right(commands[i].name(), 12);
        line.append(" - ");
        line.append(commands[i].description());
        lines.push(line);
        i = i + 1;
    }
    let s = join_lines(&lines);
    proof {
        let lv = lines@.map_values(|l: String| l@);
        let cv = commands@.map_values(|c: GameCommand| help_line(c));
        assert forall|k: int| 0 <= k < lv.len() implies #[trigger] lv[k] == cv[k] by {
            assert(lines@[k]@ == help_line(commands@[k]));
        }
        assert(lv =~= cv);
    }
    s
}

/// What `legend` logs.
fn format_legend() -> (s: String)
    ensures
        s@ == legend_text(),
{
    let mut lines: Vec<String> = Vec::new();
    lines.push("@ - Player Character (you)".to_owned());
    lines.push("+ - Door (closed)".to_owned());
    lines.push("_ - Door (open)".to_owned());
    let items = item_defs();
    let mut k: usize = 0;
    while k < items.len()
        invariant
            k <= items@.len(),
            items@.len() == ITEM_DEF_COUNT,
            forall|m: int| 0 <= m < ITEM_DEF_COUNT ==> (#[trigger] items@[m]).0 == spec_item_def_id(m)
                && spec_item_def(items@[m].0@) == Some(items@[m].1),
            lines@.len() == 3 + k,
            lines@[0]@ == "@ - Player Character (you)"@,
            lines@[1]@ == "+ - Door (closed)"@,
            lines@[2]@ == "_ - Door (open)"@,
            forall|m: int| 0 <= m < k ==> (#[trigger] lines@[3 + m])@ == legend_line(
                spec_item_def(spec_item_def_id(m)@).unwrap().glyph, spec_item_def(spec_item_def_id(m)@).unwrap().name@),
        decreases items@.len() - k,
    {
        let mut line = char_text(items[k].1.glyph);
        line.append(" - ");
        line.append(items[k].1.name);
        lines.push(line);
        k = k + 1;
    }
    let npcs = npc_defs();
    let mut k: usize = 0;
    while k < npcs.len()
        invariant
            k <= npcs@.len(),
            npcs@.len() == NPC_DEF_COUNT,
            forall|m: int| 0 <= m < NPC_DEF_COUNT ==> (#[trigger] npcs@[m]).0 == spec_npc_def_id(m)
                && spec_npc_def(npcs@[m].0@) == Some(npcs@[m].1),
            lines@.len() == 3 + ITEM_DEF_COUNT + k,
            lines@[0]@ == "@ - Player Character (you)"@,
            lines@[1]@ == "+ - Door (closed)"@,
            lines@[2]@ == "_ - Door (open)"@,
            forall|m: int| 0 <= m < ITEM_DEF_COUNT ==> (#[trigger] lines@[3 + m])@ == legend_line(
                spec_item_def(spec_item_def_id(m)@).unwrap().glyph, spec_item_def(spec_item_def_id(m)@).unwrap().name@),
            forall|m: int| 0 <= m < k ==> (#[trigger] lines@[3 + ITEM_DEF_COUNT + m])@ == legend_line(
                spec_npc_def(spec_npc_def_id(m)@).unwrap().glyph, spec_npc_def(spec_npc_def_id(m)@).unwrap().name@),
        decreases npcs@.len() - k,
    {
        let mut line = char_text(npcs[k].1.glyph);
        line.append(" - ");
        line.append(npcs[k].1.name);
        lines.push(line);
        k = k + 1;
    }
    let s = join_lines(&lines);
    proof {
        let expected = seq!["@ - Player Character (you)"@, "+ - Door (closed)"@, "_ - Door (open)"@]
            + Seq::new(ITEM_DEF_COUNT as nat, |k: int| legend_line(spec_item_def(spec_item_def_id(k)@).unwrap().glyph,
                spec_item_def(spec_item_def_id(k)@).unwrap().name@))
            + Seq::new(NPC_DEF_COUNT as nat, |k: int| legend_line(spec_npc_def(spec_npc_def_id(k)@).unwrap().glyph,
                spec_npc_def(spec_npc_def_id(k)@).unwrap().name@));
        let lv = lines@.map_values(|l: String| l@);
        assert forall|m: int| 0 <= m < lv.len() implies #[trigger] lv[m] == expected[m] by {
            if m >= 3 + ITEM_DEF_COUNT {
                assert(lines@[3 + ITEM_DEF_COUNT + (m - 3 - ITEM_DEF_COUNT)]@ == expected[m]);
            } else if m >= 3 {
                assert(lines@[3 + (m - 3)]@ == expected[m]);
            }
        }
        assert(lv =~= expected);
    }
    s
}

} // verus!

verus! {

/// Whether `log` ends with one plain entry per line of `text`.
pub open spec fn ends_with_text(log: Seq<LogData>, text: Seq<char>) -> bool {
    exists|n: int| 0 <= n <= log.len() && #[trigger] appends_text(log.take(n), log, text, 0)
}

/// The effect of `give` on the inventory: where `item_def` is defined,
/// `items_that_fit` items of that kind are appended to it, each a fresh
/// item newly registered under that definition (see
/// [fresh_items_registered]).
pub open spec fn gives_items(old: GameState, new: GameState, item_def: Seq<char>, amount: u32) -> bool {
    let inv = old.player.character.inventory@;
    let given = items_that_fit(inv.len() as int, amount as int);
    &&& new.player.character.inventory@.len() == inv.len() + given
    &&& new.player.character.inventory@.take(inv.len() as int) == inv
    &&& fresh_items_registered(old, new, item_def)
}

/// What `give` does to the game from `old` to `new`: where no item is
/// defined under `item_def`, only the log changes; else the items are given
/// as [gives_items] says.
pub open spec fn give_effect(old: GameState, new: GameState, item_def: Seq<char>, amount: u32) -> bool {
    &&& spec_item_def(item_def) is None ==> new == (GameState { log: new.log, ..old })
    &&& spec_item_def(item_def) is Some ==> gives_items(old, new, item_def, amount)
}

/// The `k`-th of the gives that `maxequip` runs: the item kind and amount.
pub open spec fn max_equip_give(k: int) -> (&'static str, u32) {
    if k == 0 {
        ("weapon_bow_cross", 1u32)
    } else if k == 1 {
        ("weapon_warhammer", 1u32)
    } else if k == 2 {
        ("armor_rustacean", 1u32)
    } else if k == 3 {
        ("food_meat", 5u32)
    } else {
        ("potion_healing_small", 2u32)
    }
}

impl GameState {
    /// Runs `give`: where no item is defined under `item_def` it says so;
    /// else it gives the items (see [GameState::give_items]) and, where any
    /// were given, logs how many were asked for.
    fn give_command(&mut self, item_def: &String, amount: u32)
        requires
            old(self).wf(),
            old(self).id_system.next_item() + give_ids_bound(amount as int) <= GameItemId::MAX,
        ensures
            final(self).wf(),
            final(self).levels == old(self).levels,
            final(self).level_nr == old(self).level_nr,
            final(self).round_nr == old(self).round_nr,
            final(self).player.character.base == old(self).player.character.base,
            final(self).player.character.stats == old(self).player.character.stats,
            final(self).id_system.next_item() <= old(self).id_system.next_item() + give_ids_bound(amount as int),
            spec_item_def(item_def@) is None ==> {
                &&& appends_text(old(self).log.messages@, final(self).log.messages@, "No item with this def_id exists."@, 0)
                &&& *final(self) == (GameState { log: final(self).log, ..*old(self) })
            },
            spec_item_def(item_def@) is Some ==> {
                &&& gives_items(*old(self), *final(self), item_def@, amount)
                &&& items_that_fit(old(self).player.character.inventory@.len() as int, amount as int) > 0
                    ==> ends_with_text(final(self).log.messages@, added_text(item_def@, amount))
            },
    {
        if self.get_item_def_by_id(item_def).is_none() {
            self.log.print("No item with this def_id exists.".to_owned());
            return;
        }
        let given = self.give_items(item_def, amount);
        if let Some(n) = given {
            if n > 0 {
                let mut text = "Added ".to_owned();
                text.append(item_def.as_str());
                text.append(" (x");
                text.append(decimal(amount as u64).as_str());
                text.append(") to player's inventory");
                let ghost before = self.log.messages@;
                self.log.print(text);
                proof {
                    assert(self.log.messages@.take(before.len() as int) == before);
                    assert(appends_text(self.log.messages@.take(before.len() as int), self.log.messages@,
                        added_text(item_def@, amount), 0));
                }
            }
        }
    }

    /// Runs a command of the command line; returns whether the game is to
    /// quit. Each command but `quit` logs what it did (see the texts named
    /// below); `help` lists the commands, `give` and `maxequip` put items
    /// into the inventory, `maxstats` and `suicide` change the player's
    /// statistics, `playerinfo` and `rngtest` report, `teleport` moves the
    /// player where the target is walkable, `revealall` shows the whole
    /// level, `legend` lists the symbols, and `noclip` and `godmode` toggle
    /// their rule.
    pub fn execute_command(&mut self, command: GameCommand) -> (quit: bool)
        requires
            old(self).wf(),
            command matches GameCommand::Give { amount, .. }
                ==> old(self).id_system.next_item() + give_ids_bound(amount as int) <= GameItemId::MAX,
            command is MaxEquip ==> old(self).id_system.next_item() + 10 <= GameItemId::MAX,
            command is PlayerInfo ==> dodge_fits(old(self).player.character.stats.abilities.dexterity,
                old(self).player.character.active_buffs@) && melee_bonus_fits(
                old(self).player.character.stats.abilities.strength, old(self).player.character.active_buffs@),
        ensures
            quit == (command is Quit),
            final(self).wf(),
            final(self).level_nr == old(self).level_nr,
            final(self).round_nr == old(self).round_nr,
            command is Quit ==> *final(self) == *old(self),
            command is Help ==> appends_text(old(self).log.messages@, final(self).log.messages@, help_text(), 0)
                && *final(self) == (GameState { log: final(self).log, ..*old(self) }),
            command is Legend ==> appends_text(old(self).log.messages@, final(self).log.messages@, legend_text(), 0)
                && *final(self) == (GameState { log: final(self).log, ..*old(self) }),
            command is PlayerInfo ==> appends_text(old(self).log.messages@, final(self).log.messages@,
                player_info_text(old(self).player.character), 0)
                && *final(self) == (GameState { log: final(self).log, ..*old(self) }),
            command is RngTest ==> (exists|roll: int, check: bool| 1 <= roll <= 6
                && #[trigger] appends_text(old(self).log.messages@, final(self).log.messages@, rng_test_text(roll, check), 0))
                && *final(self) == (GameState { log: final(self).log, rng: final(self).rng, ..*old(self) }),
            command matches GameCommand::Give { item_def, amount } ==> {
                &&& spec_item_def(item_def@) is None ==> {
                    &&& appends_text(old(self).log.messages@, final(self).log.messages@, "No item with this def_id exists."@, 0)
                    &&& *final(self) == (GameState { log: final(self).log, ..*old(self) })
                }
                &&& spec_item_def(item_def@) is Some ==> {
                    &&& gives_items(*old(self), *final(self), item_def@, amount)
                    &&& items_that_fit(old(self).player.character.inventory@.len() as int, amount as int) > 0
                        ==> ends_with_text(final(self).log.messages@, added_text(item_def@, amount))
                }
            },
            command is MaxEquip ==> {
                &&& exists|steps: Seq<GameState>| {
                        &&& steps.len() == 6
                        &&& steps[0] == *old(self)
                        &&& steps[5] == *final(self)
                        &&& forall|k: int| 0 <= k < 5 ==> give_effect(#[trigger] steps[k], steps[k + 1],
                                max_equip_give(k).0@, max_equip_give(k).1)
                    }
                &&& final(self).player.character.inventory@.take(old(self).player.character.inventory@.len() as int)
                    == old(self).player.character.inventory@
                &&& final(self).player.character.inventory@.len() <= old(self).player.character.inventory@.len() + 10
                &&& final(self).player.character.stats == old(self).player.character.stats
            },
            command is MaxStats ==> {
                &&& final(self).player.character.stats.level == 100
                &&& final(self).player.character.stats.abilities == (AbilityScores {
                        strength: 100, dexterity: 100, vitality: 100, perception: 100 })
                &&& final(self).player.character.stats.base.hp_max == 500
                &&& final(self).player.character.stats.base.hp_current == 500
                &&& final(self).player.character.stats.experience == old(self).player.character.stats.experience
                &&& final(self).player.character.same_but_stats(old(self).player.character)
                &&& appends_text(old(self).log.messages@, final(self).log.messages@, "Advanced Player to Level 100."@, 0)
            },
            command is Suicide ==> {
                &&& final(self).player.character.stats.base.hp_current == 0
                &&& final(self).player.character.stats.base.hp_max == old(self).player.character.stats.base.hp_max
                &&& final(self).player.character.stats.abilities == old(self).player.character.stats.abilities
                &&& final(self).player.character.same_but_stats(old(self).player.character)
                &&& appends_text(old(self).log.messages@, final(self).log.messages@, "Player committed suicide"@, 0)
            },
            command is RevealAll ==> {
                &&& forall|k: int| 0 <= k < final(self).cur().world.tiles@.len() ==> {
                        let t = #[trigger] final(self).cur().world.tiles@[k];
                        t.visible && t.explored && t.tile_type == old(self).cur().world.tiles@[k].tile_type
                    }
                &&& final(self).cur().world.tiles@.len() == old(self).cur().world.tiles@.len()
                &&& final(self).player == old(self).player
                &&& appends_text(old(self).log.messages@, final(self).log.messages@, "Revealing all tiles."@, 0)
            },
            command is NoClip ==> {
                &&& final(self).game_rules.spec_bits() == old(self).game_rules.spec_bits() ^ NO_CLIP_BITS
                &&& appends_text(old(self).log.messages@, final(self).log.messages@, "Toggled No-Clip Mode."@, 0)
                &&& *final(self) == (GameState { log: final(self).log, game_rules: final(self).game_rules, ..*old(self) })
            },
            command is GodMode ==> {
                &&& final(self).game_rules.spec_bits() == old(self).game_rules.spec_bits() ^ GOD_MODE_BITS
                &&& appends_text(old(self).log.messages@, final(self).log.messages@, "Toggled God Mode."@, 0)
                &&& *final(self) == (GameState { log: final(self).log, game_rules: final(self).game_rules, ..*old(self) })
            },
            command matches GameCommand::Teleport(p) ==> {
                let world = old(self).cur().world;
                &&& !world.spec_in_bounds(p.x as int, p.y as int) ==> appends_text(old(self).log.messages@,
                        final(self).log.messages@, "Position "@ + position_text(p) + " is out of bounds"@, 0)
                        && *final(self) == (GameState { log: final(self).log, ..*old(self) })
                &&& world.spec_in_bounds(p.x as int, p.y as int)
                    && !spec_is_walkable(world.tile_at(p.x as int, p.y as int).tile_type) ==> appends_text(
                        old(self).log.messages@, final(self).log.messages@,
                        "Position "@ + position_text(p) + " cannot be occupied by player"@, 0)
                        && *final(self) == (GameState { log: final(self).log, ..*old(self) })
                &&& world.spec_in_bounds(p.x as int, p.y as int)
                    && spec_is_walkable(world.tile_at(p.x as int, p.y as int).tile_type) ==> {
                    &&& final(self).player.character.base.pos == p
                    &&& appends_text(old(self).log.messages@, final(self).log.messages@, "You were teleported."@, 0)
                    &&& *final(self) == (GameState { log: final(self).log, player: crate::gameplay::player::Player {
                        character: crate::gameplay::player::PlayerCharacter {
                            base: crate::gameplay::entity_logic::EntityBase { pos: p, ..old(self).player.character.base },
                            ..old(self).player.character
                        },
                        ..old(self).player
                    }, ..*old(self) })
                }
            },
    {
        match command {
            GameCommand::Quit => {
                return true;
            },
            GameCommand::Help => {
                self.log.print(format_help());
            },
            GameCommand::Give { item_def, amount } => {
                self.give_command(&item_def, amount);
            },
            GameCommand::MaxStats => {
                self.grant_max_stats();
                self.log.print("Advanced Player to Level 100.".to_owned());
            },
            GameCommand::MaxEquip => {
                let ghost inv0 = self.player.character.inventory@;
                let ghost next0 = self.id_system.next_item();
                let kinds = [("weapon_bow_cross", 1u32), ("weapon_warhammer", 1u32), ("armor_rustacean", 1u32),
                    ("food_meat", 5u32), ("potion_healing_small", 2u32)];
                let mut given_so_far: u32 = 0;
                let mut k: usize = 0;
                let ghost mut steps: Seq<GameState> = seq![*self];
                while k < 5
                    invariant
                        k <= 5,
                        steps.len() == k + 1,
                        steps[0] == *old(self),
                        steps[k as int] == *self,
                        forall|e: int| 0 <= e < k ==> give_effect(#[trigger] steps[e], steps[e + 1],
                            max_equip_give(e).0@, max_equip_give(e).1),
                        self.wf(),
                        given_so_far <= 10,
                        k == 0 ==> given_so_far == 0,
                        k == 1 ==> given_so_far == 1,
                        k == 2 ==> given_so_far == 2,
                        k == 3 ==> given_so_far == 3,
                        k == 4 ==> given_so_far == 8,
                        k == 5 ==> given_so_far == 10,
                        kinds@ == seq![("weapon_bow_cross", 1u32), ("weapon_warhammer", 1u32), ("armor_rustacean", 1u32),
                            ("food_meat", 5u32), ("potion_healing_small", 2u32)],
                        self.id_system.next_item() <= next0 + given_so_far,
                        next0 + 10 <= GameItemId::MAX,
                        self.player.character.inventory@.take(inv0.len() as int) == inv0,
                        inv0.len() <= self.player.character.inventory@.len() <= inv0.len() + given_so_far,
                        self.player.character.stats == old(self).player.character.stats,
                        self.level_nr == old(self).level_nr,
                        self.round_nr == old(self).round_nr,
                        inv0 == old(self).player.character.inventory@,
                    decreases 5 - k,
                {
                    let (id, amount) = kinds[k];
                    let item_def = id.to_owned();
                    let ghost before = self.player.character.inventory@;
                    let ghost before_state = *self;
                    proof {
                        assert(kinds@[k as int] == max_equip_give(k as int));
                    }
                    self.give_command(&item_def, amount);
                    proof {
                        assert(give_effect(before_state, *self, max_equip_give(k as int).0@, max_equip_give(k as int).1));
                        let old_steps = steps;
                        steps = steps.push(*self);
                        assert forall|e: int| 0 <= e < k + 1 implies give_effect(#[trigger] steps[e], steps[e + 1],
                            max_equip_give(e).0@, max_equip_give(e).1) by {
                            if e < k {
                                assert(steps[e] == old_steps[e] && steps[e + 1] == old_steps[e + 1]);
                            }
                        }
                    }
                    proof {
                        if spec_item_def(item_def@) is Some {
                            assert(self.player.character.inventory@.take(before.len() as int) == before);
                            assert(self.player.character.inventory@.take(inv0.len() as int)
                                =~= self.player.character.inventory@.take(before.len() as int).take(inv0.len() as int));
                        }
                    }
                    given_so_far = given_so_far + amount;
                    k = k + 1;
                }
            },
            GameCommand::PlayerInfo => {
                let c = &self.player.character;
                let mut lines: Vec<String> = Vec::new();
                let mut line = "Character \"".to_owned();
                line.append(c.base.name.as_str());
                line.append("\"");
                lines.push(line);
                let mut line = "-  HP: ".to_owned();
                line.append(decimal(c.stats.base.hp_current as u64).as_str());
                line.append("/");
                line.append(decimal(c.stats.base.hp_max as u64).as_str());
                lines.push(line);
                let mut line = "-  Position: ".to_owned();
                line.append(format_position(c.base.pos).as_str());
                lines.push(line);
                let mut line = "-  S:".to_owned();
                line.append(decimal(c.stats.abilities.strength as u64).as_str());
                line.append(", D:");
                line.append(decimal(c.stats.abilities.dexterity as u64).as_str());
                line.append(", V:");
                line.append(decimal(c.stats.abilities.vitality as u64).as_str());
                line.append(", P:");
                line.append(decimal(c.stats.abilities.perception as u64).as_str());
                lines.push(line);
                let mut line = "-  Dodge:".to_owned();
                line.append(decimal(c.dodge_chance() as u64).as_str());
                line.append(", Dmg:");
                line.append(signed_decimal(c.attack_damage_bonus_melee() as i32).as_str());
                line.append("/");
                line.append(signed_decimal(c.attack_damage_bonus_ranged() as i32).as_str());
                lines.push(line);
                let text = join_lines(&lines);
                proof {
                    let pc = self.player.character;
                    let buffs = pc.active_buffs@;
                    let a = pc.stats.abilities;
                    let expected = seq![
                        "Character \""@ + pc.base.name@ + "\""@,
                        "-  HP: "@ + spec_decimal(pc.stats.base.hp_current as nat) + "/"@
                            + spec_decimal(pc.stats.base.hp_max as nat),
                        "-  Position: "@ + position_text(pc.base.pos),
                        "-  S:"@ + spec_decimal(a.strength as nat) + ", D:"@ + spec_decimal(a.dexterity as nat) + ", V:"@
                            + spec_decimal(a.vitality as nat) + ", P:"@ + spec_decimal(a.perception as nat),
                        "-  Dodge:"@ + spec_decimal(dodge_upto(a.dexterity, buffs, buffs.len()) as nat) + ", Dmg:"@
                            + spec_signed_decimal(melee_bonus_upto(a.strength, buffs, buffs.len())) + "/"@
                            + spec_signed_decimal(ranged_bonus_upto(a.perception, buffs, buffs.len())),
                    ];
                    assert(lines@.map_values(|l: String| l@) =~= expected);
                }
                self.log.print(text);
            },
            GameCommand::RngTest => {
                let roll: i16 = self.roll(&Roll::new(1, DieSize::D6));
                let check: bool = self.check(&Check::standard().set_difficulty(10));
                let mut lines: Vec<String> = Vec::new();
                let mut line = "Rolling 1d6: ".to_owned();
                line.append(signed_decimal(roll as i32).as_str());
                lines.push(line);
                let mut line = "Checking 1d20 against difficulty 10: ".to_owned();
                line.append(format_bool(check));
                lines.push(line);
                let text = join_lines(&lines);
                proof {
                    assert(lines@.map_values(|l: String| l@) =~= seq!["Rolling 1d6: "@ + spec_signed_decimal(roll as int),
                        "Checking 1d20 against difficulty 10: "@ + bool_text(check)]);
                }
                let ghost before = self.log.messages@;
                self.log.print(text);
                proof {
                    assert(appends_text(before, self.log.messages@, rng_test_text(roll as int, check), 0));
                }
            },
            GameCommand::Teleport(point) => {
                let outcome = self.teleport_player(point);
                match outcome {
                    Ok(GameOutcome::Fail(FailReason::PointOutOfBounds(p))) => {
                        let mut text = "Position ".to_owned();
                        text.append(format_position(p).as_str());
                        text.append(" is out of bounds");
                        self.log.print(text);
                    },
                    Ok(GameOutcome::Fail(_)) => {
                        let mut text = "Position ".to_owned();
                        text.append(format_position(point).as_str());
                        text.append(" cannot be occupied by player");
                        self.log.print(text);
                    },
                    _ => {
                        self.log.print("You were teleported.".to_owned());
                    },
                }
            },
            GameCommand::Suicide => {
                self.log.print("Player committed suicide".to_owned());
                self.set_player_hp_zero();
            },
            GameCommand::RevealAll => {
                self.log.print("Revealing all tiles.".to_owned());
                self.reveal_all();
            },
            GameCommand::Legend => {
                self.log.print(format_legend());
            },
            GameCommand::NoClip => {
                self.game_rules.toggle(GameRules::no_clip());
                self.log.print("Toggled No-Clip Mode.".to_owned());
            },
            GameCommand::GodMode => {
                self.game_rules.toggle(GameRules::god_mode());
                self.log.print("Toggled God Mode.".to_owned());
            },
        }
        false
    }
}

} // verus!
