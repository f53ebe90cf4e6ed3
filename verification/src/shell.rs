//! The thin pieces of the frontend shell whose logic is pure: view sizing
//! and the map glyph chooser.

use vstd::prelude::*;
use crate::geom::Size;
use crate::tiles::BackgroundTile;
use crate::tiles::ForegroundTile;

verus! {

/// What a shell's driving loop reports back to its host.
pub enum Tick {
    Quit,
    GameInitialisedWithSeed(u64),
    AutoSave,
}

/// Whether a saved game was found when the shell started.
pub enum InitStatus {
    NoSaveFound,
    LoadedSaveWithSeed(u64),
}

/// Where the first level's terrain seed comes from.
#[derive(Clone, Copy, Debug)]
pub enum FirstRngSeed {
    Seed(u64),
    Random,
}

/// The state the top-level view keeps between frames. The menu rendering
/// state a full frontend would hold here has no verified content, so this
/// view carries none.
pub struct AppView {
}

impl AppView {
    pub fn new() -> (r: AppView) {
        AppView {  }
    }

    /// Present for hosts that report their grid size after a resize; the
    /// view ignores it and nothing observable happens.
    pub fn set_size(&mut self, _size: Size)
        ensures
            *final(self) == *old(self),
    {
    }
}

/// Renders the whole discovered map, one character per cell.
pub struct MapView;

/// The glyph the map view draws for a foreground tile, if that tile is
/// drawn on the map at all.
pub open spec fn foreground_glyph(f: ForegroundTile) -> Option<char> {
    match f {
        ForegroundTile::Player => Some('@'),
        ForegroundTile::Tree => Some('&'),
        ForegroundTile::Stairs => Some('>'),
        ForegroundTile::Flame => Some('F'),
        ForegroundTile::Altar => Some('A'),
        ForegroundTile::Fountain => Some('~'),
        _ => None,
    }
}

/// The glyph the map view draws for a terrain layer.
pub open spec fn background_glyph(b: BackgroundTile) -> char {
    if b.is_wall_spec() {
        '#'
    } else {
        '.'
    }
}

/// The glyph for a discovered cell: the first drawn foreground glyph, in
/// the listed order, else the terrain glyph.
pub open spec fn cell_glyph(b: BackgroundTile, fgs: Seq<ForegroundTile>) -> char
    decreases fgs.len(),
{
    if fgs.len() == 0 {
        background_glyph(b)
    } else {
        match foreground_glyph(fgs[0]) {
            Some(g) => g,
            None => cell_glyph(b, fgs.drop_first()),
        }
    }
}

impl MapView {
    /// The character drawn for one discovered cell, from its terrain layer
    /// and the foreground tiles standing on it, topmost listed first.
    pub fn view_cell(&self, background: BackgroundTile, foregrounds: &Vec<ForegroundTile>) -> (r:
        char)
        ensures
            r == cell_glyph(background, foregrounds@),
    {
        let n = foregrounds.len();
        let ghost fgs = foregrounds@;
        proof {
            assert(fgs.skip(0) =~= fgs);
        }
        let mut i: usize = 0;
        while i < n
            invariant
                i <= n,
                n == fgs.len(),
                fgs == foregrounds@,
                cell_glyph(background, fgs) == cell_glyph(background, fgs.skip(i as int)),
            decreases n - i,
        {
            proof {
                assert(fgs.skip(i as int)[0] == fgs[i as int]);
            }
            let g = match foregrounds[i] {
                ForegroundTile::Player => Some('@'),
                ForegroundTile::Tree => Some('&'),
                ForegroundTile::Stairs => Some('>'),
                ForegroundTile::Flame => Some('F'),
                ForegroundTile::Altar => Some('A'),
                ForegroundTile::Fountain => Some('~'),
                _ => None,
            };
            match g {
                Some(c) => {
                    return c;
                },
                None => {
                    proof {
                        assert(fgs.skip(i as int).drop_first() =~= fgs.skip(i as int + 1));
                    }
                },
            }
            i += 1;
        }
        proof {
            assert(fgs.skip(n as int).len() == 0);
        }
        if background.is_wall() {
            '#'
        } else {
            '.'
        }
    }
}

/// Milliseconds between automatic saves.
pub const AUTO_SAVE_PERIOD_MS: u64 = 5000;

/// The auto-save countdown a driving shell keeps between ticks: each tick
/// hands in the elapsed time, and the timer says whether a save is due.
pub struct AutoSaveTimer {
    pub remaining_ms: u64,
}

impl AutoSaveTimer {
    pub fn new() -> (r: AutoSaveTimer)
        ensures
            r.remaining_ms == AUTO_SAVE_PERIOD_MS,
    {
        AutoSaveTimer { remaining_ms: AUTO_SAVE_PERIOD_MS }
    }

    /// Counts `period_ms` down; when the countdown is exhausted it resets
    /// and reports that a save is due, exactly then.
    pub fn tick(&mut self, period_ms: u64) -> (save_now: bool)
        ensures
            save_now == (period_ms >= old(self).remaining_ms),
            save_now ==> final(self).remaining_ms == AUTO_SAVE_PERIOD_MS,
            !save_now ==> final(self).remaining_ms == old(self).remaining_ms - period_ms,
    {
        if period_ms >= self.remaining_ms {
            self.remaining_ms = AUTO_SAVE_PERIOD_MS;
            true
        } else {
            self.remaining_ms = self.remaining_ms - period_ms;
            false
        }
    }
}

} // verus!
