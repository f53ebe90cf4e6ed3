//! The closed sets of tile kinds and their passability / occlusion /
//! NPC-hood lookup tables.

use vstd::prelude::*;

verus! {

/// Terrain layer of a cell: floor and ground are open, the wall variants
/// block movement and sight.
#[derive(Clone, Copy, Debug, PartialEq, Eq, Structural)]
pub enum BackgroundTile {
    Floor,
    Ground,
    IceWall,
    StoneWall,
    BrickWall,
}

/// Interactive / decorative layer drawn above the terrain.
#[derive(Clone, Copy, Debug, PartialEq, Eq, Structural)]
pub enum ForegroundTile {
    Player,
    Tree,
    Stairs,
    Flame,
    Altar,
    Fountain,
    Bruiser,
    Block,
    Spike,
    HealthPickup,
    NaturalSpike,
    Caster,
    Healer,
    Spark,
    End,
    Blink0,
    Blink1,
}

/// Hit points of a damageable entity.
#[derive(Clone, Copy, Debug, PartialEq, Eq, Structural)]
pub struct HitPoints {
    pub num: u32,
    pub max: u32,
}

impl BackgroundTile {
    /// Wall variants block movement into their cell and sight past it.
    pub open spec fn is_wall_spec(self) -> bool {
        match self {
            BackgroundTile::Floor => false,
            BackgroundTile::Ground => false,
            BackgroundTile::IceWall => true,
            BackgroundTile::StoneWall => true,
            BackgroundTile::BrickWall => true,
        }
    }

    pub fn is_wall(&self) -> (r: bool)
        ensures
            r == self.is_wall_spec(),
    {
        match self {
            BackgroundTile::IceWall => true,
            BackgroundTile::StoneWall => true,
            BackgroundTile::BrickWall => true,
            _ => false,
        }
    }
}

impl ForegroundTile {
    /// Solid foreground tiles make their cell impassable: obstacles and the
    /// NPC bodies themselves. The player and walk-over tiles (stairs,
    /// pickups, traps) are not solid, so moves may enter their cells.
    pub open spec fn is_solid_spec(self) -> bool {
        match self {
            ForegroundTile::Tree => true,
            ForegroundTile::Block => true,
            ForegroundTile::Altar => true,
            ForegroundTile::Fountain => true,
            ForegroundTile::Bruiser => true,
            ForegroundTile::Caster => true,
            ForegroundTile::Healer => true,
            _ => false,
        }
    }

    pub fn is_solid(&self) -> (r: bool)
        ensures
            r == self.is_solid_spec(),
    {
        match self {
            ForegroundTile::Tree => true,
            ForegroundTile::Block => true,
            ForegroundTile::Altar => true,
            ForegroundTile::Fountain => true,
            ForegroundTile::Bruiser => true,
            ForegroundTile::Caster => true,
            ForegroundTile::Healer => true,
            _ => false,
        }
    }

    /// NPC kinds: entities of these tiles take engine turns and may hold a
    /// movement commitment toward the player.
    pub open spec fn is_npc_spec(self) -> bool {
        match self {
            ForegroundTile::Bruiser => true,
            ForegroundTile::Caster => true,
            ForegroundTile::Healer => true,
            _ => false,
        }
    }

    pub fn is_npc(&self) -> (r: bool)
        ensures
            r == self.is_npc_spec(),
    {
        match self {
            ForegroundTile::Bruiser => true,
            ForegroundTile::Caster => true,
            ForegroundTile::Healer => true,
            _ => false,
        }
    }
}

} // verus!
