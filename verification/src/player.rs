use vstd::prelude::*;

verus! {

/// Which scoring rate applies to the player this frame.
#[derive(Clone, Copy, Debug, PartialEq, Eq, Structural)]
pub enum ScoreZone {
    /// No points: the player is frozen, or nothing is near.
    Away,
    /// Terrain is within the close range: the close rate applies.
    Close,
    /// Terrain is within the far range only: the far rate applies.
    Far,
}

/// The life cycle of the player's craft: alive or crashed, frozen (no
/// physics, no scoring) or flying, shown or hidden, and which proximity
/// zones currently hold a body.
#[derive(Clone, Copy, Debug, PartialEq, Eq, Structural)]
pub struct Player {
    /// Crashed and waiting to respawn.
    pub is_dead: bool,
    /// Physics is suspended: no thrust and no scoring.
    pub frozen: bool,
    /// The craft is drawn.
    pub visible: bool,
    /// A body is inside the close proximity zone.
    pub close_overlap: bool,
    /// A body is inside the far proximity zone.
    pub far_overlap: bool,
}

impl Player {
    /// The state after a crash: frozen, hidden, dead; zones unchanged.
    pub open spec fn crashed(self) -> Player {
        Player { is_dead: true, frozen: true, visible: false, ..self }
    }

    /// The state after a respawn: flying, shown, alive; zones unchanged.
    pub open spec fn respawned(self) -> Player {
        Player { is_dead: false, frozen: false, visible: true, ..self }
    }

    /// The scoring zone of this state: none while frozen; else the close
    /// zone if it holds a body, else the far zone if it does.
    pub open spec fn zone(self) -> ScoreZone {
        if self.frozen {
            ScoreZone::Away
        } else if self.close_overlap {
            ScoreZone::Close
        } else if self.far_overlap {
            ScoreZone::Far
        } else {
            ScoreZone::Away
        }
    }

    /// A fresh craft: alive, not frozen, shown, no body in either zone.
    pub fn new() -> (p: Player)
        ensures
            p == (Player {
                is_dead: false,
                frozen: false,
                visible: true,
                close_overlap: false,
                far_overlap: false,
            }),
    {
        Player { is_dead: false, frozen: false, visible: true, close_overlap: false, far_overlap: false }
    }

    /// Entering the game: the craft waits frozen until the first respawn.
    pub fn ready(&mut self)
        ensures
            *final(self) == (Player { frozen: true, ..*old(self) }),
    {
        self.frozen = true;
    }

    /// A collision: the craft freezes, disappears and is dead until the
    /// respawn timer fires.
    pub fn on_collision(&mut self)
        ensures
            *final(self) == old(self).crashed(),
    {
        self.frozen = true;
        self.visible = false;
        self.is_dead = true;
    }

    /// The respawn timer fired: the craft flies again, shown and alive (the
    /// host also moves it to the origin and resets the score to zero).
    pub fn on_timer_timeout(&mut self)
        ensures
            *final(self) == old(self).respawned(),
    {
        self.frozen = false;
        self.visible = true;
        self.is_dead = false;
    }

    /// A body entered the close zone.
    pub fn on_close_body_overlap(&mut self)
        ensures
            *final(self) == (Player { close_overlap: true, ..*old(self) }),
    {
        self.close_overlap = true;
    }

    /// A body left the close zone.
    pub fn on_close_body_exit(&mut self)
        ensures
            *final(self) == (Player { close_overlap: false, ..*old(self) }),
    {
        self.close_overlap = false;
    }

    /// A body entered the far zone.
    pub fn on_far_body_overlap(&mut self)
        ensures
            *final(self) == (Player { far_overlap: true, ..*old(self) }),
    {
        self.far_overlap = true;
    }

    /// A body left the far zone.
    pub fn on_far_body_exit(&mut self)
        ensures
            *final(self) == (Player { far_overlap: false, ..*old(self) }),
    {
        self.far_overlap = false;
    }

    /// Which rate scores this frame (see [`Player::zone`]).
    pub fn score_zone(&self) -> (z: ScoreZone)
        ensures
            z == self.zone(),
    {
        if self.frozen {
            ScoreZone::Away
        } else if self.close_overlap {
            ScoreZone::Close
        } else if self.far_overlap {
            ScoreZone::Far
        } else {
            ScoreZone::Away
        }
    }

    /// Whether forward thrust applies this physics step: exactly when not frozen.
    pub fn thrust_enabled(&self) -> (b: bool)
        ensures
            b == !self.frozen,
    {
        !self.frozen
    }
}

/// A respawn undoes a crash: the craft is alive, shown and flying again,
/// with its proximity zones untouched.
pub proof fn law_respawn_undoes_crash(s: Player)
    ensures
        s.crashed().respawned() == (Player { is_dead: false, frozen: false, visible: true, ..s }),
        s.crashed().respawned().close_overlap == s.close_overlap,
        s.crashed().respawned().far_overlap == s.far_overlap,
{
}

/// Scoring by proximity, over every state: a frozen craft is in no scoring
/// zone (dead or alive, whatever is near it); a flying craft scores at the
/// close rate when the close zone holds a body, else at the far rate when
/// the far zone does, else not at all.
pub proof fn law_score_zone(s: Player)
    ensures
        s.frozen ==> s.zone() == ScoreZone::Away,
        !s.frozen && s.close_overlap ==> s.zone() == ScoreZone::Close,
        !s.frozen && !s.close_overlap && s.far_overlap ==> s.zone() == ScoreZone::Far,
        !s.close_overlap && !s.far_overlap ==> s.zone() == ScoreZone::Away,
        s.zone() == ScoreZone::Far ==> s.far_overlap && !s.frozen,
        s.zone() == ScoreZone::Close ==> s.close_overlap && !s.frozen,
{
}

/// A craft that has entered the game but not yet respawned scores nothing,
/// whatever bodies enter its zones.
pub proof fn law_waiting_craft_scores_nothing(s: Player, close: bool, far: bool)
    ensures
        (Player { frozen: true, close_overlap: close, far_overlap: far, ..s }).zone() == ScoreZone::Away,
{
}

/// A crashed craft scores nothing, whatever is near it.
pub proof fn law_crashed_scores_nothing(s: Player)
    ensures
        s.crashed().zone() == ScoreZone::Away,
{
}

/// The close zone takes precedence: a flying craft with a body in the close
/// zone scores at the close rate, whether or not the far zone holds one.
pub proof fn law_close_zone_precedes(s: Player)
    requires
        !s.frozen,
        s.close_overlap,
    ensures
        s.zone() == ScoreZone::Close,
{
}

} // verus!
