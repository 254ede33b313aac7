//! What the keyboard is directed at, and what an open modal asks for.

use vstd::prelude::*;

use crate::gameplay::cursor::CursorMode;
use crate::gameplay::game_items::GameItemId;
use crate::gameplay::player_actions::PlayerInput;
use crate::world::coordinate_system::Direction;

verus! {

/// Where keyboard input goes.
#[derive(Clone, Copy, Debug, PartialEq, Eq, Structural, Default)]
pub enum KeyboardFocus {
    /// To the world: the player character, or the cursor.
    #[default]
    FocusWorld,
    /// To the menu beside the world.
    FocusMenu,
}

/// What a key pressed in a modal window asks for.
#[derive(Clone, Debug)]
pub enum ModalAction {
    /// Nothing yet.
    Idle,
    /// Close the modal.
    CloseModal,
    /// Run the typed command line.
    RunCommand(String),
}

/// The inventory slot a lowercase letter selects: `a` is 0, `z` is 25;
/// other characters select none.
pub fn letter_to_index(c: char) -> (r: Option<usize>)
    ensures
        ('a' <= c <= 'z') ==> r == Some((c as u32 - 'a' as u32) as usize),
        !('a' <= c <= 'z') ==> r is None,
{
    if 'a' <= c && c <= 'z' {
        Some((c as u32 - 'a' as u32) as usize)
    } else {
        None
    }
}

/// What the open inventory is for.
#[derive(Clone, Copy, Debug, PartialEq, Eq, Structural)]
pub enum InventoryAction {
    Use,
    Drop,
}

/// What a key pressed with the world in focus (and no cursor shown) does.
#[derive(Clone, Copy, Debug, PartialEq, Eq, Structural)]
pub enum WorldKeyAction {
    /// Hand the input to the game.
    Act(PlayerInput),
    /// Open the inventory for using or dropping an item.
    OpenInventory(InventoryAction),
    /// Show a cursor of the given kind on the player character.
    StartCursor(CursorMode),
    /// Debugging: log the player character's position.
    LogPosition,
    /// Debugging: log the registered items.
    LogItems,
    /// Debugging: show a test text window.
    ShowTestText,
    /// Debugging: show a test prompt.
    ShowTestPrompt,
    /// Nothing.
    Nothing,
}

/// The keys of the world: `w`/`a`/`s`/`d` move, `.` waits, `W`/`A` unequip
/// the weapon and the armor, `i`/`D` open the inventory to use or drop,
/// `l`/`r` show a look or ranged attack cursor; `p`, `o`, `9`, `8` are for
/// debugging; other keys do nothing.
pub open spec fn spec_world_key_action(key: char) -> WorldKeyAction {
    if key == 'w' {
        WorldKeyAction::Act(PlayerInput::Direction(Direction::Up))
    } else if key == 's' {
        WorldKeyAction::Act(PlayerInput::Direction(Direction::Down))
    } else if key == 'a' {
        WorldKeyAction::Act(PlayerInput::Direction(Direction::Left))
    } else if key == 'd' {
        WorldKeyAction::Act(PlayerInput::Direction(Direction::Right))
    } else if key == '.' {
        WorldKeyAction::Act(PlayerInput::Wait)
    } else if key == 'W' {
        WorldKeyAction::Act(PlayerInput::UnequipWeapon)
    } else if key == 'A' {
        WorldKeyAction::Act(PlayerInput::UnequipArmor)
    } else if key == 'i' {
        WorldKeyAction::OpenInventory(InventoryAction::Use)
    } else if key == 'D' {
        WorldKeyAction::OpenInventory(InventoryAction::Drop)
    } else if key == 'l' {
        WorldKeyAction::StartCursor(CursorMode::Look)
    } else if key == 'r' {
        WorldKeyAction::StartCursor(CursorMode::RangedAttack)
    } else if key == 'p' {
        WorldKeyAction::LogPosition
    } else if key == 'o' {
        WorldKeyAction::LogItems
    } else if key == '9' {
        WorldKeyAction::ShowTestText
    } else if key == '8' {
        WorldKeyAction::ShowTestPrompt
    } else {
        WorldKeyAction::Nothing
    }
}

/// What a character key does with the world in focus.
pub fn world_key_action(key: char) -> (a: WorldKeyAction)
    ensures
        a == spec_world_key_action(key),
{
    match key {
        'w' => WorldKeyAction::Act(PlayerInput::Direction(Direction::Up)),
        's' => WorldKeyAction::Act(PlayerInput::Direction(Direction::Down)),
        'a' => WorldKeyAction::Act(PlayerInput::Direction(Direction::Left)),
        'd' => WorldKeyAction::Act(PlayerInput::Direction(Direction::Right)),
        '.' => WorldKeyAction::Act(PlayerInput::Wait),
        'W' => WorldKeyAction::Act(PlayerInput::UnequipWeapon),
        'A' => WorldKeyAction::Act(PlayerInput::UnequipArmor),
        'i' => WorldKeyAction::OpenInventory(InventoryAction::Use),
        'D' => WorldKeyAction::OpenInventory(InventoryAction::Drop),
        'l' => WorldKeyAction::StartCursor(CursorMode::Look),
        'r' => WorldKeyAction::StartCursor(CursorMode::RangedAttack),
        'p' => WorldKeyAction::LogPosition,
        'o' => WorldKeyAction::LogItems,
        '9' => WorldKeyAction::ShowTestText,
        '8' => WorldKeyAction::ShowTestPrompt,
        _ => WorldKeyAction::Nothing,
    }
}

/// A key as a modal window sees it.
#[derive(Clone, Copy, Debug, PartialEq, Eq, Structural)]
pub enum ModalKey {
    Char(char),
    Enter,
    Esc,
    Backspace,
    Other,
}

/// An open modal window, as far as keys bear on it.
#[derive(Clone, Debug)]
pub enum ModalState {
    /// Asks whether to quit.
    ConfirmQuit,
    /// Asks whether to use the item.
    ConfirmUseItem(GameItemId),
    /// Asks whether to drop the item.
    ConfirmDropItem(GameItemId),
    /// The command line, with what is typed so far.
    CommandInput(String),
    /// A text (the help, say), closed by Esc or Enter.
    TextDisplay,
    /// A prompt with the given number of options, chosen by letter.
    SelectPrompt(usize),
}

/// What a key in a modal window makes happen besides changing the window.
#[derive(Clone, Debug)]
pub enum ModalEffect {
    Nothing,
    /// Quit the game.
    Quit,
    /// Use the item (as the player's input).
    UseItem(GameItemId),
    /// Drop the item (as the player's input).
    DropItem(GameItemId),
    /// Run the command line.
    RunCommand(String),
    /// The prompt's option with this index was chosen.
    ChooseOption(usize),
}

/// The key `key` in the modal `modal`: the window afterwards (`None` where
/// it closes) and what else happens.
///
/// - The command line: a character is appended, Backspace takes the last
///   one away, Esc closes it, Enter closes it and runs the command typed.
/// - Asking to quit: `q` quits, any other key closes the window.
/// - Asking to use or drop an item: `y` or Enter uses or drops it and
///   closes the window, `n` or Esc closes it, other keys are ignored.
/// - A text: Esc or Enter closes it.
/// - A prompt: Esc closes it; a letter chooses the option it selects, where
///   there is one.
pub fn modal_key_step(modal: ModalState, key: ModalKey) -> (r: (Option<ModalState>, ModalEffect))
    ensures
        modal is CommandInput ==> match key {
            ModalKey::Char(c) => r.0 matches Some(ModalState::CommandInput(b)) && b@ == modal->CommandInput_0@.push(c)
                && r.1 is Nothing,
            ModalKey::Backspace => r.0 matches Some(ModalState::CommandInput(b))
                && b@ == (if modal->CommandInput_0@.len() > 0 { modal->CommandInput_0@.drop_last() } else { modal->CommandInput_0@ })
                && r.1 is Nothing,
            ModalKey::Esc => r.0 is None && r.1 is Nothing,
            ModalKey::Enter => r.0 is None && (r.1 matches ModalEffect::RunCommand(c) && c@ == modal->CommandInput_0@),
            ModalKey::Other => r.0 matches Some(ModalState::CommandInput(b)) && b@ == modal->CommandInput_0@
                && r.1 is Nothing,
        },
        modal is ConfirmQuit ==> if key == ModalKey::Char('q') {
            r.0 matches Some(ModalState::ConfirmQuit) && r.1 is Quit
        } else {
            r.0 is None && r.1 is Nothing
        },
        modal matches ModalState::ConfirmUseItem(id) ==>
            if key == ModalKey::Char('y') || key == ModalKey::Enter {
                r.0 is None && r.1 == ModalEffect::UseItem(id)
            } else if key == ModalKey::Char('n') || key == ModalKey::Esc {
                r.0 is None && r.1 is Nothing
            } else {
                r.0 == Some(ModalState::ConfirmUseItem(id)) && r.1 is Nothing
            },
        modal matches ModalState::ConfirmDropItem(id) ==>
            if key == ModalKey::Char('y') || key == ModalKey::Enter {
                r.0 is None && r.1 == ModalEffect::DropItem(id)
            } else if key == ModalKey::Char('n') || key == ModalKey::Esc {
                r.0 is None && r.1 is Nothing
            } else {
                r.0 == Some(ModalState::ConfirmDropItem(id)) && r.1 is Nothing
            },
        modal is TextDisplay ==> if key == ModalKey::Esc || key == ModalKey::Enter {
            r.0 is None && r.1 is Nothing
        } else {
            r.0 matches Some(ModalState::TextDisplay) && r.1 is Nothing
        },
        modal matches ModalState::SelectPrompt(n) ==> match key {
            ModalKey::Esc => r.0 is None && r.1 is Nothing,
            ModalKey::Char(c) => r.0 matches Some(ModalState::SelectPrompt(m)) && m == n
                && if 'a' <= c <= 'z' && (c as u32 - 'a' as u32) < n {
                    r.1 == ModalEffect::ChooseOption((c as u32 - 'a' as u32) as usize)
                } else {
                    r.1 is Nothing
                },
            _ => r.0 matches Some(ModalState::SelectPrompt(m)) && m == n && r.1 is Nothing,
        },
{
    match modal {
        ModalState::CommandInput(buffer) => match key {
            ModalKey::Char(c) => {
                let mut b = buffer;
                let t = crate::util::strings::char_text(c);
                b.append(t.as_str());
                (Some(ModalState::CommandInput(b)), ModalEffect::Nothing)
            },
            ModalKey::Backspace => {
                let n = buffer.as_str().unicode_len();
                let b = if n > 0 { buffer.as_str().substring_char(0, n - 1).to_owned() } else { buffer };
                (Some(ModalState::CommandInput(b)), ModalEffect::Nothing)
            },
            ModalKey::Esc => (None, ModalEffect::Nothing),
            ModalKey::Enter => (None, ModalEffect::RunCommand(buffer)),
            ModalKey::Other => (Some(ModalState::CommandInput(buffer)), ModalEffect::Nothing),
        },
        ModalState::ConfirmQuit => match key {
            ModalKey::Char('q') => (Some(ModalState::ConfirmQuit), ModalEffect::Quit),
            _ => (None, ModalEffect::Nothing),
        },
        ModalState::ConfirmUseItem(id) => match key {
            ModalKey::Char('y') | ModalKey::Enter => (None, ModalEffect::UseItem(id)),
            ModalKey::Char('n') | ModalKey::Esc => (None, ModalEffect::Nothing),
            _ => (Some(ModalState::ConfirmUseItem(id)), ModalEffect::Nothing),
        },
        ModalState::ConfirmDropItem(id) => match key {
            ModalKey::Char('y') | ModalKey::Enter => (None, ModalEffect::DropItem(id)),
            ModalKey::Char('n') | ModalKey::Esc => (None, ModalEffect::Nothing),
            _ => (Some(ModalState::ConfirmDropItem(id)), ModalEffect::Nothing),
        },
        ModalState::TextDisplay => match key {
            ModalKey::Esc | ModalKey::Enter => (None, ModalEffect::Nothing),
            _ => (Some(ModalState::TextDisplay), ModalEffect::Nothing),
        },
        ModalState::SelectPrompt(n) => match key {
            ModalKey::Esc => (None, ModalEffect::Nothing),
            ModalKey::Char(c) => {
                let effect = match letter_to_index(c) {
                    Some(index) => if index < n { ModalEffect::ChooseOption(index) } else { ModalEffect::Nothing },
                    None => ModalEffect::Nothing,
                };
                (Some(ModalState::SelectPrompt(n)), effect)
            },
            _ => (Some(ModalState::SelectPrompt(n)), ModalEffect::Nothing),
        },
    }
}

} // verus!
