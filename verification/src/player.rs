use vstd::prelude::*;
use crate::playerinfo::{PlayerInfo, PlayerInfoV};

verus! {

/// One player's mutable per-match record: display name, the four scored
/// counters, the per-round credit counter, the currently equipped item, the
/// last equipped utility item with the tick it was equipped, and the
/// player's identity record.
#[derive(Clone, Debug)]
pub struct Player {
    pub name: String,
    pub kills: i32,
    pub assists: i32,
    pub flash_assists: i32,
    pub deaths: i32,
    pub kast: i32,
    pub equipped: String,
    pub latest_muna: Option<String>,
    pub muna_tick: i32,
    pub info: PlayerInfo,
}

/// The mathematical shape of a player record.
pub struct PlayerV {
    pub name: Seq<char>,
    pub kills: int,
    pub assists: int,
    pub flash_assists: int,
    pub deaths: int,
    pub kast: int,
    pub equipped: Seq<char>,
    pub latest_muna: Option<Seq<char>>,
    pub muna_tick: int,
    pub info: PlayerInfoV,
}

impl View for Player {
    type V = PlayerV;

    open spec fn view(&self) -> PlayerV {
        PlayerV {
            name: self.name@,
            kills: self.kills as int,
            assists: self.assists as int,
            flash_assists: self.flash_assists as int,
            deaths: self.deaths as int,
            kast: self.kast as int,
            equipped: self.equipped@,
            latest_muna: match self.latest_muna {
                Some(s) => Some(s@),
                None => None,
            },
            muna_tick: self.muna_tick as int,
            info: self.info@,
        }
    }
}

/// The record a player starts the match with: the identity's display name,
/// every counter at zero, a knife in hand, and no utility equipped yet.
pub open spec fn fresh_player(info: PlayerInfoV) -> PlayerV {
    PlayerV {
        name: info.name,
        kills: 0,
        assists: 0,
        flash_assists: 0,
        deaths: 0,
        kast: 0,
        equipped: "knife"@,
        latest_muna: None,
        muna_tick: 0,
        info,
    }
}

impl Player {
    /// A fresh copy of the record, field for field.
    pub fn duplicate(&self) -> (r: Player)
        ensures
            r@ == self@,
    {
        Player {
            name: self.name.clone(),
            kills: self.kills,
            assists: self.assists,
            flash_assists: self.flash_assists,
            deaths: self.deaths,
            kast: self.kast,
            equipped: self.equipped.clone(),
            latest_muna: match &self.latest_muna {
                Some(s) => Some(s.clone()),
                None => None,
            },
            muna_tick: self.muna_tick,
            info: self.info.duplicate(),
        }
    }

    /// A fresh record for a newly seen identity.
    pub fn new(info: PlayerInfo) -> (r: Player)
        ensures
            r@ == fresh_player(info@),
    {
        let name = info.name.clone();
        Player {
            name,
            kills: 0,
            assists: 0,
            flash_assists: 0,
            deaths: 0,
            kast: 0,
            equipped: String::from_str("knife"),
            latest_muna: None,
            muna_tick: 0,
            info,
        }
    }
}

} // verus!
