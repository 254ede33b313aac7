use vstd::prelude::*;

verus! {

/// The colours the game draws with. The terminal front end maps each to its
/// own colour type.
#[derive(Clone, Copy, Debug, PartialEq, Eq, Structural)]
pub enum Color {
    White,
    Gray,
    DarkGray,
    Yellow,
    Green,
    LightGreen,
    Red,
    Magenta,
    Blue,
    Cyan,
    Black,
    LightRed,
    LightBlue,
    LightYellow,
}

/// The basic building block of the world: the static environment of one
/// grid cell.
#[derive(Clone, Copy, Debug, PartialEq, Eq, Structural)]
pub struct Tile {
    /// Type of the tile
    pub tile_type: TileType,
    /// Whether the tile is currently visible by the player.
    pub visible: bool,
    /// Whether the tile has ever been seen by the player.
    pub explored: bool,
}

#[derive(Clone, Copy, Debug, PartialEq, Eq, Structural)]
pub enum TileType {
    /// Solid rock outside the playable area; cannot be seen or walked through.
    Void,
    /// Basic walkable floor
    Floor,
    /// Walls that encase every room.
    Wall,
    /// Hallways between rooms.
    Hallway,
    /// Door that leads from a room's wall to a hallway.
    Door(DoorType),
    /// Stairs that lead further down into the dungeon
    StairsDown,
    /// Stairs that lead back up the dungeon floors
    StairsUp,
}

#[derive(Clone, Copy, Debug, PartialEq, Eq, Structural)]
pub enum DoorType {
    /// The door is open and cannot be closed again.
    Open,
    /// The door is closed and must be interacted with to open.
    Closed,
    /// No door is present. Basically just a hole in the wall.
    Archway,
}

impl Tile {
    /// A tile of the given type, unseen.
    pub open spec fn new_spec(tile_type: TileType) -> Tile {
        Tile { tile_type, visible: false, explored: false }
    }

    pub fn new(tile_type: TileType) -> (t: Self)
        ensures
            t == Tile::new_spec(tile_type),
            t == (Tile { tile_type, visible: false, explored: false }),
    {
        Self { tile_type, visible: false, explored: false }
    }

    /// The default tile: unseen solid rock.
    pub fn void() -> (t: Self)
        ensures
            t == (Tile { tile_type: TileType::Void, visible: false, explored: false }),
    {
        Self { tile_type: TileType::Void, visible: false, explored: false }
    }

    /// Reveal the tile to the player.
    pub fn make_visible(&mut self)
        ensures
            *final(self) == (Tile { visible: true, ..*old(self) }),
    {
        self.visible = true;
    }

    /// Conceal the tile for the player.
    pub fn make_invisible(&mut self)
        ensures
            *final(self) == (Tile { visible: false, ..*old(self) }),
    {
        self.visible = false;
    }

    /// Mark this tile as previously explored.
    pub fn make_explored(&mut self)
        ensures
            *final(self) == (Tile { explored: true, ..*old(self) }),
    {
        self.explored = true;
    }
}

/// Whether a tile type can be walked through.
pub open spec fn spec_is_walkable(t: TileType) -> bool {
    match t {
        TileType::Void => false,
        TileType::Floor => true,
        TileType::Wall => false,
        TileType::Hallway => true,
        TileType::Door(DoorType::Open) => true,
        TileType::Door(DoorType::Closed) => false,
        TileType::Door(DoorType::Archway) => true,
        TileType::StairsDown => true,
        TileType::StairsUp => true,
    }
}

/// Whether a tile type blocks vision.
pub open spec fn spec_is_opaque(t: TileType) -> bool {
    match t {
        TileType::Void => true,
        TileType::Floor => false,
        TileType::Wall => true,
        TileType::Hallway => false,
        TileType::Door(DoorType::Open) => false,
        TileType::Door(DoorType::Closed) => true,
        TileType::Door(DoorType::Archway) => false,
        TileType::StairsDown => false,
        TileType::StairsUp => false,
    }
}

/// Whether the player can interact with a tile type.
pub open spec fn spec_is_interactable(t: TileType) -> bool {
    match t {
        TileType::Door(DoorType::Closed) => true,
        TileType::StairsDown => true,
        TileType::StairsUp => true,
        _ => false,
    }
}

/// The character a tile type is drawn with.
pub open spec fn spec_glyph(t: TileType) -> char {
    match t {
        TileType::Void => ' ',
        TileType::Floor => '·',
        TileType::Wall => '#',
        TileType::Hallway => '░',
        TileType::Door(DoorType::Archway) => '·',
        TileType::Door(DoorType::Open) => '_',
        TileType::Door(DoorType::Closed) => '+',
        TileType::StairsDown => '>',
        TileType::StairsUp => '<',
    }
}

/// The foreground colour a tile type is drawn with (`None`: the default style).
pub open spec fn spec_color(t: TileType) -> Option<Color> {
    match t {
        TileType::Void => None,
        TileType::Floor => Some(Color::Gray),
        TileType::Wall => Some(Color::White),
        TileType::Hallway => Some(Color::DarkGray),
        TileType::Door(DoorType::Archway) => Some(Color::Gray),
        TileType::Door(_) => Some(Color::Yellow),
        TileType::StairsDown => Some(Color::White),
        TileType::StairsUp => Some(Color::White),
    }
}

/// A visual representation in the terminal.
pub trait Drawable {
    /// The character used to draw this.
    fn glyph(&self) -> char;

    /// The foreground colour used to draw this (`None`: the default style).
    fn color(&self) -> Option<Color>;
}

/// Whether something can be walked through by the player and NPCs.
pub trait Collision {
    fn is_walkable(&self) -> bool;
}

/// Whether an object is opaque (`true`) or see-through (`false`); used by
/// the field-of-view system.
pub trait Opacity {
    fn is_opaque(&self) -> bool;
}

/// Whether an object has a defined game interaction.
pub trait Interactable {
    fn is_interactable(&self) -> bool;
}

impl Collision for TileType {
    fn is_walkable(&self) -> (b: bool)
        ensures
            b == spec_is_walkable(*self),
    {
        match self {
            TileType::Void => false,
            TileType::Floor => true,
            TileType::Wall => false,
            TileType::Hallway => true,
            TileType::Door(DoorType::Open) => true,
            TileType::Door(DoorType::Closed) => false,
            TileType::Door(DoorType::Archway) => true,
            TileType::StairsDown => true,
            TileType::StairsUp => true,
        }
    }
}

impl Opacity for TileType {
    fn is_opaque(&self) -> (b: bool)
        ensures
            b == spec_is_opaque(*self),
    {
        match self {
            TileType::Void => true,
            TileType::Floor => false,
            TileType::Wall => true,
            TileType::Hallway => false,
            TileType::Door(DoorType::Open) => false,
            TileType::Door(DoorType::Closed) => true,
            TileType::Door(DoorType::Archway) => false,
            TileType::StairsDown => false,
            TileType::StairsUp => false,
        }
    }
}

impl Interactable for TileType {
    fn is_interactable(&self) -> (b: bool)
        ensures
            b == spec_is_interactable(*self),
    {
        match self {
            TileType::Void => false,
            TileType::Floor => false,
            TileType::Wall => false,
            TileType::Hallway => false,
            TileType::Door(DoorType::Open) => false,
            TileType::Door(DoorType::Closed) => true,
            TileType::Door(DoorType::Archway) => false,
            TileType::StairsDown => true,
            TileType::StairsUp => true,
        }
    }
}

impl Drawable for TileType {
    /// Walls are drawn with directional wall characters chosen by the renderer.
    fn glyph(&self) -> (c: char)
        ensures
            c == spec_glyph(*self),
    {
        match self {
            TileType::Void => ' ',
            TileType::Floor => '·',
            TileType::Wall => '#',
            TileType::Hallway => '░',
            TileType::Door(DoorType::Archway) => '·',
            TileType::Door(DoorType::Open) => '_',
            TileType::Door(DoorType::Closed) => '+',
            TileType::StairsDown => '>',
            TileType::StairsUp => '<',
        }
    }

    fn color(&self) -> (c: Option<Color>)
        ensures
            c == spec_color(*self),
    {
        match self {
            TileType::Void => None,
            TileType::Floor => Some(Color::Gray),
            TileType::Wall => Some(Color::White),
            TileType::Hallway => Some(Color::DarkGray),
            TileType::Door(DoorType::Archway) => Some(Color::Gray),
            TileType::Door(_) => Some(Color::Yellow),
            TileType::StairsDown => Some(Color::White),
            TileType::StairsUp => Some(Color::White),
        }
    }
}

/// The name a tile type is described by in the game log.
pub open spec fn spec_tile_name(t: TileType) -> &'static str {
    match t {
        TileType::Void => "Nothing",
        TileType::Floor => "Floor",
        TileType::Wall => "Wall",
        TileType::Hallway => "Hallway",
        TileType::Door(DoorType::Archway) => "Archway",
        TileType::Door(DoorType::Closed) => "Closed Door",
        TileType::Door(DoorType::Open) => "Open Door",
        TileType::StairsDown => "Stairs leading further down...",
        TileType::StairsUp => "Stairs leading back up.",
    }
}

impl TileType {
    /// The name this tile type is described by in the game log.
    pub fn name(&self) -> (s: &'static str)
        ensures
            s == spec_tile_name(*self),
    {
        match self {
            TileType::Void => "Nothing",
            TileType::Floor => "Floor",
            TileType::Wall => "Wall",
            TileType::Hallway => "Hallway",
            TileType::Door(DoorType::Archway) => "Archway",
            TileType::Door(DoorType::Closed) => "Closed Door",
            TileType::Door(DoorType::Open) => "Open Door",
            TileType::StairsDown => "Stairs leading further down...",
            TileType::StairsUp => "Stairs leading back up.",
        }
    }
}

} // verus!
