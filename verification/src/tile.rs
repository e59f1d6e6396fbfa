//! Tile kinds, the tiles a grid holds, and the glyph table that maps each
//! tile kind to the single character used by the textual map format.

use vstd::prelude::*;

verus! {

/// The kind of one grid cell. The first four are persistent terrain; the
/// rest are overlay markers used only by the textual map format.
#[derive(Debug, PartialEq, Eq, Structural, Clone, Copy)]
pub enum TileType {
    Empty,
    Wall,
    Floor,
    StaircaseDown,
    Player,
    Potion,
    Lightning,
    Orc,
    Troll,
}

/// A hint for the renderer: whether a floor cell belongs to a room interior.
#[derive(Debug, PartialEq, Eq, Structural, Clone, Copy)]
pub enum RenderHint {
    Empty,
    RoomFloor,
}

/// One cell of the grid.
#[derive(Debug, PartialEq, Eq, Structural, Clone, Copy)]
pub struct Tile {
    pub tile_type: TileType,
    pub render_hint: RenderHint,
}

impl Tile {
    /// A fresh tile of the given kind with no render hint.
    pub fn new(tile_type: TileType) -> (r: Tile)
        ensures
            r.tile_type == tile_type,
            r.render_hint == RenderHint::Empty,
    {
        Tile { tile_type, render_hint: RenderHint::Empty }
    }
}

/// The glyph that stands for a tile kind in the textual map format.
pub open spec fn glyph_of(t: TileType) -> char {
    match t {
        TileType::Empty => ' ',
        TileType::Wall => '#',
        TileType::Floor => '.',
        TileType::StaircaseDown => '>',
        TileType::Player => '@',
        TileType::Potion => '!',
        TileType::Lightning => '?',
        TileType::Orc => 'o',
        TileType::Troll => 'T',
    }
}

/// Whether a character is one of the glyphs of the table.
pub open spec fn is_glyph(c: char) -> bool {
    c == ' ' || c == '#' || c == '.' || c == '>' || c == '@' || c == '!' || c == '?' || c == 'o'
        || c == 'T'
}

/// The tile kind a glyph stands for (meaningful only when `is_glyph` holds).
pub open spec fn tile_type_of(c: char) -> TileType {
    if c == '#' {
        TileType::Wall
    } else if c == '.' {
        TileType::Floor
    } else if c == '>' {
        TileType::StaircaseDown
    } else if c == '@' {
        TileType::Player
    } else if c == '!' {
        TileType::Potion
    } else if c == '?' {
        TileType::Lightning
    } else if c == 'o' {
        TileType::Orc
    } else if c == 'T' {
        TileType::Troll
    } else {
        TileType::Empty
    }
}

/// The two glyph maps invert each other: looking a kind's glyph back up
/// yields the same kind, and re-rendering a known glyph's kind yields the
/// same glyph.
pub proof fn lemma_glyph_round_trip(t: TileType, c: char)
    requires
        is_glyph(c),
    ensures
        tile_type_of(glyph_of(t)) == t,
        glyph_of(tile_type_of(c)) == c,
{
}

/// The kind of item that can lie on the floor.
#[derive(Debug, PartialEq, Eq, Structural, Hash, Copy, Clone)]
pub enum ItemType {
    HealPotion,
    Lightning,
}

impl ItemType {
    /// The item's display name.
    pub fn to_string(&self) -> (r: String)
        ensures
            *self == ItemType::HealPotion ==> r@ == "HealPotion"@,
            *self == ItemType::Lightning ==> r@ == "Lightning"@,
    {
        match self {
            ItemType::HealPotion => "HealPotion".to_owned(),
            ItemType::Lightning => "Lightning".to_owned(),
        }
    }

    /// The overlay tile kind that renders this item.
    pub fn to_tile_type(&self) -> (r: TileType)
        ensures
            r == self.spec_tile_type(),
    {
        match self {
            ItemType::HealPotion => TileType::Potion,
            ItemType::Lightning => TileType::Lightning,
        }
    }

    /// The overlay tile kind of this item, at the specification level.
    pub open spec fn spec_tile_type(self) -> TileType {
        match self {
            ItemType::HealPotion => TileType::Potion,
            ItemType::Lightning => TileType::Lightning,
        }
    }
}

/// The kind of monster that can occupy a cell.
#[derive(Debug, PartialEq, Eq, Structural, Clone, Copy)]
pub enum MonsterType {
    Orc,
    Troll,
}

impl MonsterType {
    /// The overlay tile kind that renders this monster.
    pub fn to_tile_type(&self) -> (r: TileType)
        ensures
            r == self.spec_tile_type(),
    {
        match self {
            MonsterType::Orc => TileType::Orc,
            MonsterType::Troll => TileType::Troll,
        }
    }

    /// The overlay tile kind of this monster, at the specification level.
    pub open spec fn spec_tile_type(self) -> TileType {
        match self {
            MonsterType::Orc => TileType::Orc,
            MonsterType::Troll => TileType::Troll,
        }
    }
}

/// One row of the glyph table: a glyph, the tile kind it stands for, and the
/// item or monster it marks where it is an overlay glyph.
#[derive(Debug, Clone, Copy)]
pub struct TileRow {
    pub character: char,
    pub tile_type: TileType,
    pub item_type: Option<ItemType>,
    pub monster_type: Option<MonsterType>,
}

/// The glyph table of the textual map format.
#[derive(Debug, Clone, Copy)]
pub struct TileMapping {}

impl TileMapping {
    /// The one glyph table.
    pub fn new() -> (r: TileMapping) {
        TileMapping {  }
    }

    /// The glyph that renders a tile kind.
    pub fn get_char(&self, tile_type: &TileType) -> (r: char)
        ensures
            r == glyph_of(*tile_type),
            is_glyph(r),
    {
        match tile_type {
            TileType::Empty => ' ',
            TileType::Wall => '#',
            TileType::Floor => '.',
            TileType::StaircaseDown => '>',
            TileType::Player => '@',
            TileType::Potion => '!',
            TileType::Lightning => '?',
            TileType::Orc => 'o',
            TileType::Troll => 'T',
        }
    }

    /// The tile kind a glyph stands for. A character outside the table is a
    /// data-corruption error and is ruled out by the precondition.
    pub fn get_tile_type(&self, character: char) -> (r: TileType)
        requires
            is_glyph(character),
        ensures
            r == tile_type_of(character),
    {
        if character == '#' {
            TileType::Wall
        } else if character == '.' {
            TileType::Floor
        } else if character == '>' {
            TileType::StaircaseDown
        } else if character == '@' {
            TileType::Player
        } else if character == '!' {
            TileType::Potion
        } else if character == '?' {
            TileType::Lightning
        } else if character == 'o' {
            TileType::Orc
        } else if character == 'T' {
            TileType::Troll
        } else {
            TileType::Empty
        }
    }

    /// The full table row of a glyph, with the item or monster it marks.
    pub fn get_tile_row(&self, character: char) -> (r: TileRow)
        requires
            is_glyph(character),
        ensures
            r.character == character,
            r.tile_type == tile_type_of(character),
            r.item_type == (if character == '!' {
                Some(ItemType::HealPotion)
            } else if character == '?' {
                Some(ItemType::Lightning)
            } else {
                None::<ItemType>
            }),
            r.monster_type == (if character == 'o' {
                Some(MonsterType::Orc)
            } else if character == 'T' {
                Some(MonsterType::Troll)
            } else {
                None::<MonsterType>
            }),
    {
        let tile_type = self.get_tile_type(character);
        let item_type = if character == '!' {
            Some(ItemType::HealPotion)
        } else if character == '?' {
            Some(ItemType::Lightning)
        } else {
            None
        };
        let monster_type = if character == 'o' {
            Some(MonsterType::Orc)
        } else if character == 'T' {
            Some(MonsterType::Troll)
        } else {
            None
        };
        TileRow { character, tile_type, item_type, monster_type }
    }
}

} // verus!
