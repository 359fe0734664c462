use vstd::prelude::*;
use crate::assoc::{as_map, distinct_keys, lemma_as_map_at, lemma_as_map_contains, AssocMap};
use crate::cmd::Cmd;
use crate::error::DemoError;
use crate::game_event::{read_event_names, EventContext};
use crate::header::Header;
use crate::messages::{CreateStringTableMsg, UpdateStringTableMsg};
use crate::player::{fresh_player, Player, PlayerV};
use crate::playerinfo::{PlayerInfo, PlayerInfoV};
use crate::stringtables::{
    create_fields_ok, create_model, entry_count, is_userinfo, table_decode, DecodeOutcome,
    StringTable,
};

verus! {

/// A player's standing within the current round, for the per-round credit:
/// a kill, an assist, survival so far, an avenged death, or an unavenged
/// death carrying who killed them and at which tick.
#[derive(Clone, Copy, Debug, PartialEq, Eq, Structural)]
pub enum PlayerState {
    Killed,
    Assisted,
    Survived,
    Traded,
    Died(i32, i32),
}

impl View for PlayerState {
    type V = PlayerState;

    open spec fn view(&self) -> PlayerState {
        *self
    }
}

/// An informational correlation surfaced on a death: the victim held this
/// item, equipped this many ticks ago. Not a statistic.
#[derive(Clone, Debug)]
pub struct UtilityNote {
    pub user_id: i32,
    pub item: String,
    pub age_ticks: i64,
}

/// An `i32` counter bumped by one, stopping at the top.
pub open spec fn sat_inc(x: int) -> int {
    if x < i32::MAX {
        x + 1
    } else {
        x
    }
}

/// An `i32` counter dropped by one, stopping at the bottom.
pub open spec fn sat_dec(x: int) -> int {
    if x > i32::MIN {
        x - 1
    } else {
        x
    }
}

/// Whether a death `dt` ticks before its avenging kill falls inside the
/// 18.2-second trade window at `rate` ticks per second.
pub open spec fn in_trade_window(dt: int, rate: int) -> bool {
    10 * dt < 182 * rate
}

/// Whether a utility item equipped `dt` ticks ago still counts as in hand:
/// within 2.5 seconds at `rate` ticks per second.
pub open spec fn in_utility_window(dt: int, rate: int) -> bool {
    10 * dt < 25 * rate
}

/// Whether a round standing earns the per-round credit: everything but an
/// unavenged death does.
pub open spec fn earns_credit(s: PlayerState) -> bool {
    !(s matches PlayerState::Died(_, _))
}

/// A player record with one more credited round.
pub open spec fn bump_kast(p: PlayerV) -> PlayerV {
    PlayerV { kast: sat_inc(p.kast), ..p }
}

/// A player record with one more kill.
pub open spec fn bump_kills(p: PlayerV) -> PlayerV {
    PlayerV { kills: sat_inc(p.kills), ..p }
}

/// A player record with one more death.
pub open spec fn bump_deaths(p: PlayerV) -> PlayerV {
    PlayerV { deaths: sat_inc(p.deaths), ..p }
}

/// A player record with one more assist.
pub open spec fn bump_assists(p: PlayerV) -> PlayerV {
    PlayerV { assists: sat_inc(p.assists), ..p }
}

/// A player record with one assist taken away.
pub open spec fn drop_assists(p: PlayerV) -> PlayerV {
    PlayerV { assists: sat_dec(p.assists), ..p }
}

/// A player record with one more flash assist.
pub open spec fn bump_flash(p: PlayerV) -> PlayerV {
    PlayerV { flash_assists: sat_inc(p.flash_assists), ..p }
}

/// The match aggregator: one mutable state, advanced by every decoded
/// command, and read out once at the end of the stream. The tick rate
/// (ticks per second, derived from the header's frame count and duration)
/// is fixed at construction and used for every tick-to-seconds window.
pub struct State {
    pub header: Header,
    pub tickrate: i32,
    pub player_table: Option<StringTable>,
    pub table_id: usize,
    pub current_tick: i32,
    pub current_round: i32,
    pub score: (i32, i32),
    pub events: EventContext,
    pub players: AssocMap<Player>,
    pub current_round_player_state: AssocMap<PlayerState>,
    pub teams: AssocMap<bool>,
}

impl State {
    /// The structural invariant: every table keeps distinct keys.
    pub open spec fn wf(&self) -> bool {
        &&& self.players.wf()
        &&& self.current_round_player_state.wf()
        &&& self.teams.wf()
        &&& self.events.wf()
        &&& (self.player_table matches Some(t) ==> t.wf())
    }

    /// A fresh aggregator for one match: everything empty, at round zero and
    /// a level score, before any table or schema has been seen.
    pub fn new(header: Header, tickrate: i32) -> (r: State)
        ensures
            r.wf(),
            r.header == header,
            r.tickrate == tickrate,
            r.player_table is None,
            r.table_id == 0,
            r.current_tick == 0,
            r.current_round == 0,
            r.score == (0i32, 0i32),
            r.events@ == Map::<i64, crate::game_event::DescriptorV>::empty(),
            r.players@ == Map::<i64, PlayerV>::empty(),
            r.current_round_player_state@ == Map::<i64, PlayerState>::empty(),
            r.teams@ == Map::<i64, bool>::empty(),
    {
        State {
            header,
            tickrate,
            player_table: None,
            table_id: 0,
            current_tick: 0,
            current_round: 0,
            score: (0, 0),
            events: EventContext::new(AssocMap::new()),
            players: AssocMap::new(),
            current_round_player_state: AssocMap::new(),
            teams: AssocMap::new(),
        }
    }

    /// The key of the first stored player whose identity carries this xuid.
    pub open spec fn spec_find_xuid(s: Seq<(i64, PlayerV)>, xuid: int) -> Option<i64>
        decreases s.len(),
    {
        if s.len() == 0 {
            None
        } else if s[0].1.info.xuid == xuid {
            Some(s[0].0)
        } else {
            Self::spec_find_xuid(s.drop_first(), xuid)
        }
    }

    /// Find a stored player by the stable cross-match identity, earliest
    /// stored first.
    pub fn find_player_by_xuid(&self, xuid: i64) -> (r: Option<i64>)
        requires
            self.wf(),
        ensures
            r == Self::spec_find_xuid(self.players.pairs_seq(), xuid as int),
    {
        let n = self.players.length();
        let mut i: usize = 0;
        proof {
            assert(self.players.pairs_seq().skip(0) =~= self.players.pairs_seq());
        }
        while i < n
            invariant
                i <= n,
                n == self.players.pairs_seq().len(),
                self.wf(),
                Self::spec_find_xuid(self.players.pairs_seq(), xuid as int)
                    == Self::spec_find_xuid(self.players.pairs_seq().skip(i as int), xuid as int),
            decreases n - i,
        {
            let p = self.players.val_at(i);
            proof {
                assert(self.players.pairs_seq().skip(i as int)[0] == self.players.pairs_seq()[
                    i as int
                ]);
                assert(self.players.pairs_seq().skip(i as int).drop_first() =~= self.players
                    .pairs_seq().skip(i + 1));
            }
            if p.info.xuid == xuid {
                return Some(self.players.key_at(i));
            }
            i = i + 1;
        }
        None
    }

    /// Begin a round: the round counter moves up, and exactly at round 16
    /// the two score accumulators swap, the competitive side-swap
    /// convention.
    pub fn handle_round_start(&mut self)
        requires
            old(self).wf(),
        ensures
            final(self).wf(),
            final(self).current_round == sat_inc(old(self).current_round as int),
            final(self).score == (if final(self).current_round == 16 {
                (old(self).score.1, old(self).score.0)
            } else {
                old(self).score
            }),
            final(self).header == old(self).header,
            final(self).tickrate == old(self).tickrate,
            final(self).player_table == old(self).player_table,
            final(self).table_id == old(self).table_id,
            final(self).current_tick == old(self).current_tick,
            final(self).events == old(self).events,
            final(self).players == old(self).players,
            final(self).current_round_player_state == old(self).current_round_player_state,
            final(self).teams == old(self).teams,
    {
        if self.current_round < i32::MAX {
            self.current_round = self.current_round + 1;
        }
        if self.current_round == 16 {
            self.score = (self.score.1, self.score.0);
        }
    }

    /// The untouched configuration: fields no event handler changes.
    pub open spec fn frame_core(pre: State, post: State) -> bool {
        &&& post.header == pre.header
        &&& post.tickrate == pre.tickrate
        &&& post.player_table == pre.player_table
        &&& post.table_id == pre.table_id
        &&& post.current_tick == pre.current_tick
        &&& post.events == pre.events
    }

    /// Begin a new match: the round counter and the score return to zero,
    /// and every player's mutable statistics reset to a fresh record while
    /// identity is preserved.
    pub fn clear_stats(&mut self)
        requires
            old(self).wf(),
        ensures
            final(self).wf(),
            Self::frame_core(*old(self), *final(self)),
            final(self).current_round == 0,
            final(self).score == (0i32, 0i32),
            final(self).current_round_player_state == old(self).current_round_player_state,
            final(self).teams == old(self).teams,
            final(self).players@ == Map::new(
                |k: i64| old(self).players@.contains_key(k),
                |k: i64| fresh_player(old(self).players@[k].info),
            ),
    {
        self.current_round = 0;
        self.score = (0, 0);
        let ks = self.players.keys();
        let ghost orig = old(self).players@;
        let ghost kseq = old(self).players.pairs_seq();
        let mut j: usize = 0;
        while j < ks.len()
            invariant
                self.players.wf(),
                old(self).wf(),
                j <= ks@.len(),
                ks@.len() == kseq.len(),
                forall|i: int| 0 <= i < kseq.len() ==> ks@[i] == kseq[i].0,
                orig == old(self).players@,
                kseq == old(self).players.pairs_seq(),
                distinct_keys(kseq),
                self.header == old(self).header,
                self.tickrate == old(self).tickrate,
                self.player_table == old(self).player_table,
                self.table_id == old(self).table_id,
                self.current_tick == old(self).current_tick,
                self.events == old(self).events,
                self.current_round_player_state == old(self).current_round_player_state,
                self.teams == old(self).teams,
                self.current_round == 0,
                self.score == (0i32, 0i32),
                self.players@ == Map::new(
                    |k: i64| orig.contains_key(k),
                    |k: i64|
                        if exists|i: int| 0 <= i < j && kseq[i].0 == k {
                            fresh_player(orig[k].info)
                        } else {
                            orig[k]
                        },
                ),
            decreases ks@.len() - j,
        {
            let k = ks[j];
            let ghost prev = self.players@;
            proof {
                lemma_as_map_at(kseq, j as int);
            }
            match self.players.remove(k) {
                Some(p) => {
                    let fresh = Player::new(p.info);
                    self.players.insert(k, fresh);
                    proof {
                        assert(self.players@ =~= Map::new(
                            |k2: i64| orig.contains_key(k2),
                            |k2: i64|
                                if exists|i: int| 0 <= i < j + 1 && kseq[i].0 == k2 {
                                    fresh_player(orig[k2].info)
                                } else {
                                    orig[k2]
                                },
                        )) by {
                            assert forall|k2: i64| orig.contains_key(k2) implies ({
                                let cond_new = exists|i: int| 0 <= i < j + 1 && kseq[i].0 == k2;
                                let cond_old = exists|i: int| 0 <= i < j && kseq[i].0 == k2;
                                self.players@[k2] == if cond_new {
                                    fresh_player(orig[k2].info)
                                } else {
                                    orig[k2]
                                }
                            }) by {
                                if k2 == k {
                                    assert(kseq[j as int].0 == k2);
                                } else {
                                    assert(forall|i: int|
                                        0 <= i < j + 1 && kseq[i].0 == k2 ==> i < j);
                                }
                            }
                        }
                    }
                },
                None => {
                    proof {
                        assert(false);
                    }
                },
            }
            j = j + 1;
        }
        proof {
            assert(self.players@ =~= Map::new(
                |k: i64| orig.contains_key(k),
                |k: i64| fresh_player(orig[k].info),
            )) by {
                assert forall|k: i64| orig.contains_key(k) implies (exists|i: int|
                    0 <= i < kseq.len() && kseq[i].0 == k) by {
                    lemma_as_map_contains(kseq, k);
                }
            }
        }
    }

    /// End a round for the per-round credit: every tracked user whose round
    /// standing earns credit has their counter bumped; users tracked in the
    /// round but absent from the roster are skipped.
    pub fn update_player_kast_score(&mut self)
        requires
            old(self).wf(),
        ensures
            final(self).wf(),
            Self::frame_core(*old(self), *final(self)),
            final(self).current_round == old(self).current_round,
            final(self).score == old(self).score,
            final(self).current_round_player_state == old(self).current_round_player_state,
            final(self).teams == old(self).teams,
            final(self).players@ == Map::new(
                |k: i64| old(self).players@.contains_key(k),
                |k: i64|
                    if old(self).current_round_player_state@.contains_key(k) && earns_credit(
                        old(self).current_round_player_state@[k],
                    ) {
                        bump_kast(old(self).players@[k])
                    } else {
                        old(self).players@[k]
                    },
            ),
    {
        let ghost orig = old(self).players@;
        let ghost kastseq = old(self).current_round_player_state.pairs_seq();
        let ghost kastmap = old(self).current_round_player_state@;
        let n = self.current_round_player_state.length();
        let mut j: usize = 0;
        while j < n
            invariant
                self.players.wf(),
                old(self).wf(),
                j <= n,
                n == kastseq.len(),
                orig == old(self).players@,
                kastseq == old(self).current_round_player_state.pairs_seq(),
                kastmap == old(self).current_round_player_state@,
                distinct_keys(kastseq),
                self.header == old(self).header,
                self.tickrate == old(self).tickrate,
                self.player_table == old(self).player_table,
                self.table_id == old(self).table_id,
                self.current_tick == old(self).current_tick,
                self.events == old(self).events,
                self.current_round_player_state == old(self).current_round_player_state,
                self.teams == old(self).teams,
                self.current_round == old(self).current_round,
                self.score == old(self).score,
                self.players@ == Map::new(
                    |k: i64| orig.contains_key(k),
                    |k: i64|
                        if exists|i: int|
                            0 <= i < j && kastseq[i].0 == k && earns_credit(kastseq[i].1) {
                            bump_kast(orig[k])
                        } else {
                            orig[k]
                        },
                ),
            decreases n - j,
        {
            let k = self.current_round_player_state.key_at(j);
            let st = self.current_round_player_state.val_at(j);
            let credited = match st {
                PlayerState::Died(_, _) => false,
                _ => true,
            };
            if credited {
                match self.players.remove(k) {
                    Some(p) => {
                        let mut p = p;
                        if p.kast < i32::MAX {
                            p.kast = p.kast + 1;
                        }
                        self.players.insert(k, p);
                    },
                    None => {},
                }
            }
            proof {
                assert(self.players@ =~= Map::new(
                    |k2: i64| orig.contains_key(k2),
                    |k2: i64|
                        if exists|i: int|
                            0 <= i < j + 1 && kastseq[i].0 == k2 && earns_credit(kastseq[i].1) {
                            bump_kast(orig[k2])
                        } else {
                            orig[k2]
                        },
                )) by {
                    assert forall|k2: i64| orig.contains_key(k2) implies ({
                        let cond_new = exists|i: int|
                            0 <= i < j + 1 && kastseq[i].0 == k2 && earns_credit(kastseq[i].1);
                        self.players@[k2] == if cond_new {
                            bump_kast(orig[k2])
                        } else {
                            orig[k2]
                        }
                    }) by {
                        if k2 == k {
                            assert(kastseq[j as int].0 == k2);
                        } else {
                            assert(forall|i: int|
                                0 <= i < j + 1 && kastseq[i].0 == k2 ==> i < j);
                        }
                    }
                }
            }
            j = j + 1;
        }
        proof {
            assert(self.players@ =~= Map::new(
                |k: i64| orig.contains_key(k),
                |k: i64|
                    if kastmap.contains_key(k) && earns_credit(kastmap[k]) {
                        bump_kast(orig[k])
                    } else {
                        orig[k]
                    },
            )) by {
                assert forall|k: i64| orig.contains_key(k) implies ({
                    let cond_seq = exists|i: int|
                        0 <= i < kastseq.len() && kastseq[i].0 == k && earns_credit(kastseq[i].1);
                    let cond_map = kastmap.contains_key(k) && earns_credit(kastmap[k]);
                    cond_seq == cond_map
                }) by {
                    lemma_as_map_contains(kastseq, k);
                    if kastmap.contains_key(k) {
                        let i = choose|i: int| 0 <= i < kastseq.len() && kastseq[i].0 == k;
                        lemma_as_map_at(kastseq, i);
                    }
                    if exists|i: int|
                        0 <= i < kastseq.len() && kastseq[i].0 == k && earns_credit(kastseq[i].1) {
                        let i = choose|i: int|
                            0 <= i < kastseq.len() && kastseq[i].0 == k && earns_credit(
                                kastseq[i].1,
                            );
                        lemma_as_map_at(kastseq, i);
                    }
                }
            }
        }
    }

    /// Mark one death in the round standings: the killer Killed (unless the
    /// killer is the victim), the assister Assisted, and the victim — when
    /// still counted as surviving — Died with the effective killer id and
    /// the tick of death.
    pub open spec fn kast_marked(
        m: Map<i64, PlayerState>,
        killer: Option<i32>,
        assister: Option<i32>,
        victim: i32,
        tick: i32,
    ) -> Map<i64, PlayerState> {
        let m1 = match killer {
            Some(k) => if k != victim {
                m.insert(k as i64, PlayerState::Killed)
            } else {
                m
            },
            None => m,
        };
        let m2 = match assister {
            Some(a) => m1.insert(a as i64, PlayerState::Assisted),
            None => m1,
        };
        let kid = match killer {
            Some(k) => k,
            None => 0,
        };
        if !m2.contains_key(victim as i64) || m2[victim as i64] == PlayerState::Survived {
            m2.insert(victim as i64, PlayerState::Died(kid, tick))
        } else {
            m2
        }
    }

    /// One standing after a death at `victim`'s hands is avenged or not: an
    /// unavenged death whose killer is this victim, within the trade window,
    /// becomes Traded; everything else stands.
    pub open spec fn promote_one(s: PlayerState, victim: i32, tick: i32, rate: i32) -> PlayerState {
        match s {
            PlayerState::Died(x, t) => if x == victim && in_trade_window(
                tick - t,
                rate as int,
            ) {
                PlayerState::Traded
            } else {
                s
            },
            _ => s,
        }
    }

    /// Every standing promoted pointwise.
    pub open spec fn kast_promoted(
        m: Map<i64, PlayerState>,
        victim: i32,
        tick: i32,
        rate: i32,
    ) -> Map<i64, PlayerState> {
        Map::new(
            |k: i64| m.contains_key(k),
            |k: i64| Self::promote_one(m[k], victim, tick, rate),
        )
    }

    /// Update the per-round standings for one death: mark killer, assister
    /// and victim, then promote to Traded every user whose unavenged death
    /// was at this victim's hands within the 18.2-second trade window —
    /// their death was avenged in time.
    pub fn update_kast(&mut self, killer: Option<i32>, assister: Option<i32>, victim: i32)
        requires
            old(self).wf(),
        ensures
            final(self).wf(),
            Self::frame_core(*old(self), *final(self)),
            final(self).current_round == old(self).current_round,
            final(self).score == old(self).score,
            final(self).players == old(self).players,
            final(self).teams == old(self).teams,
            final(self).current_round_player_state@ == Self::kast_promoted(
                Self::kast_marked(
                    old(self).current_round_player_state@,
                    killer,
                    assister,
                    victim,
                    old(self).current_tick,
                ),
                victim,
                old(self).current_tick,
                old(self).tickrate,
            ),
    {
        match killer {
            Some(k) => {
                if k != victim {
                    self.current_round_player_state.insert(k as i64, PlayerState::Killed);
                }
            },
            None => {},
        }
        match assister {
            Some(a) => {
                self.current_round_player_state.insert(a as i64, PlayerState::Assisted);
            },
            None => {},
        }
        let still_surviving = match self.current_round_player_state.get(victim as i64) {
            Some(s) => *s == PlayerState::Survived,
            None => true,
        };
        if still_surviving {
            let kid = match killer {
                Some(k) => k,
                None => 0,
            };
            self.current_round_player_state.insert(
                victim as i64,
                PlayerState::Died(kid, self.current_tick),
            );
        }
        let ghost marked = Self::kast_marked(
            old(self).current_round_player_state@,
            killer,
            assister,
            victim,
            old(self).current_tick,
        );
        proof {
            assert(self.current_round_player_state@ == marked);
        }
        let ghost mseq = self.current_round_player_state.pairs_seq();
        let ks = self.current_round_player_state.keys();
        let tick = self.current_tick;
        let rate = self.tickrate;
        let mut j: usize = 0;
        while j < ks.len()
            invariant
                self.current_round_player_state.wf(),
                old(self).wf(),
                j <= ks@.len(),
                ks@.len() == mseq.len(),
                forall|i: int| 0 <= i < mseq.len() ==> ks@[i] == mseq[i].0,
                distinct_keys(mseq),
                as_map(mseq) == marked,
                tick == old(self).current_tick,
                rate == old(self).tickrate,
                self.header == old(self).header,
                self.tickrate == old(self).tickrate,
                self.player_table == old(self).player_table,
                self.table_id == old(self).table_id,
                self.current_tick == old(self).current_tick,
                self.events == old(self).events,
                self.players == old(self).players,
                self.teams == old(self).teams,
                self.current_round == old(self).current_round,
                self.score == old(self).score,
                self.current_round_player_state@ == Map::new(
                    |k: i64| marked.contains_key(k),
                    |k: i64|
                        if exists|i: int| 0 <= i < j && mseq[i].0 == k {
                            Self::promote_one(marked[k], victim, tick, rate)
                        } else {
                            marked[k]
                        },
                ),
            decreases ks@.len() - j,
        {
            let k = ks[j];
            proof {
                lemma_as_map_at(mseq, j as int);
            }
            let promote = match self.current_round_player_state.get(k) {
                Some(PlayerState::Died(x, t)) => {
                    let dt: i64 = (tick as i64) - (*t as i64);
                    *x == victim && 10 * dt < 182 * (rate as i64)
                },
                _ => false,
            };
            if promote {
                self.current_round_player_state.insert(k, PlayerState::Traded);
            }
            proof {
                assert(self.current_round_player_state@ =~= Map::new(
                    |k2: i64| marked.contains_key(k2),
                    |k2: i64|
                        if exists|i: int| 0 <= i < j + 1 && mseq[i].0 == k2 {
                            Self::promote_one(marked[k2], victim, tick, rate)
                        } else {
                            marked[k2]
                        },
                )) by {
                    assert forall|k2: i64| marked.contains_key(k2) implies ({
                        let cond_new = exists|i: int| 0 <= i < j + 1 && mseq[i].0 == k2;
                        self.current_round_player_state@[k2] == if cond_new {
                            Self::promote_one(marked[k2], victim, tick, rate)
                        } else {
                            marked[k2]
                        }
                    }) by {
                        if k2 == k {
                            assert(mseq[j as int].0 == k2);
                        } else {
                            assert(forall|i: int| 0 <= i < j + 1 && mseq[i].0 == k2 ==> i < j);
                        }
                    }
                }
            }
            j = j + 1;
        }
        proof {
            assert(self.current_round_player_state@ =~= Self::kast_promoted(
                marked,
                victim,
                tick,
                rate,
            )) by {
                assert forall|k: i64| marked.contains_key(k) implies (exists|i: int|
                    0 <= i < mseq.len() && mseq[i].0 == k) by {
                    lemma_as_map_contains(mseq, k);
                }
            }
        }
    }

    /// The four-way assist adjustment: a flash assist from the victim's own
    /// side changes nothing, a flash assist across sides earns a flash
    /// assist, a plain assist from the victim's own side costs an assist,
    /// and a plain assist across sides earns one. This exact sign table is a
    /// deliberate scoring choice.
    pub open spec fn four_way(p: PlayerV, flash: bool, same_side_as_victim: bool) -> PlayerV {
        if flash {
            if same_side_as_victim {
                p
            } else {
                bump_flash(p)
            }
        } else {
            if same_side_as_victim {
                drop_assists(p)
            } else {
                bump_assists(p)
            }
        }
    }

    /// What one death does to the roster, given the recorded sides. The
    /// effective kill credit goes to the killer, or the victim for a
    /// self-inflicted death; no kill is credited when the effective killer
    /// is the victim or shares the victim's side (friendly fire is excluded,
    /// not penalized). The assister's adjustment follows the four-way sign
    /// table, only when the assister has a recorded side. The victim's death
    /// counter always moves. An id missing from the roster skips that one
    /// update. Nothing at all is scored — `None` — when the effective killer
    /// or the victim has no recorded side.
    pub open spec fn stats_applied(
        players: Map<i64, PlayerV>,
        teams: Map<i64, bool>,
        death: i32,
        killer: Option<i32>,
        assist: Option<i32>,
        flash: bool,
    ) -> Option<Map<i64, PlayerV>> {
        let kill = match killer {
            Some(k) => k,
            None => death,
        };
        if !teams.contains_key(kill as i64) || !teams.contains_key(death as i64) {
            None
        } else {
            let kt = teams[kill as i64];
            let vt = teams[death as i64];
            let p1 = if kill == death || kt == vt {
                players
            } else if players.contains_key(kill as i64) {
                players.insert(kill as i64, bump_kills(players[kill as i64]))
            } else {
                players
            };
            let p2 = match assist {
                Some(a) => if teams.contains_key(a as i64) && p1.contains_key(a as i64) {
                    p1.insert(a as i64, Self::four_way(p1[a as i64], flash, teams[a as i64] == vt))
                } else {
                    p1
                },
                None => p1,
            };
            let p3 = if p2.contains_key(death as i64) {
                p2.insert(death as i64, bump_deaths(p2[death as i64]))
            } else {
                p2
            };
            Some(p3)
        }
    }

    /// Score one death. The per-round standings are updated first, whatever
    /// the sides say; then the roster changes exactly as `stats_applied`
    /// says, and `None` comes back — with the roster untouched — when the
    /// effective killer or the victim has no recorded side.
    #[verifier::rlimit(100)]
    pub fn update_stats(
        &mut self,
        death: i32,
        killer: Option<i32>,
        assist: Option<i32>,
        assist_flash: bool,
        _weapon: &str,
    ) -> (res: Option<()>)
        requires
            old(self).wf(),
        ensures
            final(self).wf(),
            Self::frame_core(*old(self), *final(self)),
            final(self).current_round == old(self).current_round,
            final(self).score == old(self).score,
            final(self).teams == old(self).teams,
            final(self).current_round_player_state@ == Self::kast_promoted(
                Self::kast_marked(
                    old(self).current_round_player_state@,
                    killer,
                    assist,
                    death,
                    old(self).current_tick,
                ),
                death,
                old(self).current_tick,
                old(self).tickrate,
            ),
            match res {
                Some(()) => Self::stats_applied(
                    old(self).players@,
                    old(self).teams@,
                    death,
                    killer,
                    assist,
                    assist_flash,
                ) == Some(final(self).players@),
                None => Self::stats_applied(
                    old(self).players@,
                    old(self).teams@,
                    death,
                    killer,
                    assist,
                    assist_flash,
                ) is None && final(self).players == old(self).players,
            },
    {
        self.update_kast(killer, assist, death);
        let kill = match killer {
            Some(k) => k,
            None => death,
        };
        let killer_team = match self.teams.get(kill as i64) {
            Some(t) => *t,
            None => {
                return None;
            },
        };
        let victim_team = match self.teams.get(death as i64) {
            Some(t) => *t,
            None => {
                return None;
            },
        };
        if kill == death || killer_team == victim_team {
            // Friendly fire and self-inflicted deaths credit no kill.
        } else {
            match self.players.remove(kill as i64) {
                Some(p) => {
                    let mut p = p;
                    if p.kills < i32::MAX {
                        p.kills = p.kills + 1;
                    }
                    self.players.insert(kill as i64, p);
                },
                None => {},
            }
        }
        match assist {
            Some(a) => {
                match self.teams.get(a as i64) {
                    Some(at) => {
                        let same_side = *at == victim_team;
                        match self.players.remove(a as i64) {
                            Some(p) => {
                                let mut p = p;
                                if assist_flash {
                                    if !same_side {
                                        if p.flash_assists < i32::MAX {
                                            p.flash_assists = p.flash_assists + 1;
                                        }
                                    }
                                } else {
                                    if same_side {
                                        if p.assists > i32::MIN {
                                            p.assists = p.assists - 1;
                                        }
                                    } else {
                                        if p.assists < i32::MAX {
                                            p.assists = p.assists + 1;
                                        }
                                    }
                                }
                                self.players.insert(a as i64, p);
                            },
                            None => {},
                        }
                    },
                    None => {},
                }
            },
            None => {},
        }
        match self.players.remove(death as i64) {
            Some(p) => {
                let mut p = p;
                if p.deaths < i32::MAX {
                    p.deaths = p.deaths + 1;
                }
                self.players.insert(death as i64, p);
            },
            None => {},
        }
        Some(())
    }

    /// The fixed utility set: grenade-class items tracked for the
    /// in-hand-at-death correlation.
    pub open spec fn is_utility(item: Seq<char>) -> bool {
        ||| item == "hegrenade"@
        ||| item == "incgrenade"@
        ||| item == "smokegrenade"@
        ||| item == "flashbang"@
        ||| item == "molotov"@
    }

    /// What equipping an item does to a player's record: the item goes in
    /// hand, and a utility item also stamps the current tick.
    pub open spec fn equip_applied(
        players: Map<i64, PlayerV>,
        id: i32,
        item: Seq<char>,
        tick: i32,
    ) -> Map<i64, PlayerV> {
        if players.contains_key(id as i64) {
            let p = players[id as i64];
            players.insert(
                id as i64,
                PlayerV {
                    equipped: item,
                    latest_muna: if Self::is_utility(item) {
                        Some(item)
                    } else {
                        p.latest_muna
                    },
                    muna_tick: if Self::is_utility(item) {
                        tick as int
                    } else {
                        p.muna_tick
                    },
                    ..p
                },
            )
        } else {
            players
        }
    }

    /// Put an item in a player's hands, exactly as `equip_applied` says; an
    /// id missing from the roster changes nothing.
    pub fn equip(&mut self, id: i32, item: String)
        requires
            old(self).wf(),
        ensures
            final(self).wf(),
            Self::frame_core(*old(self), *final(self)),
            final(self).current_round == old(self).current_round,
            final(self).score == old(self).score,
            final(self).teams == old(self).teams,
            final(self).current_round_player_state == old(self).current_round_player_state,
            final(self).players@ == Self::equip_applied(
                old(self).players@,
                id,
                item@,
                old(self).current_tick,
            ),
    {
        match self.players.remove(id as i64) {
            Some(p) => {
                let mut p = p;
                let utility = item == String::from_str("hegrenade") || item == String::from_str(
                    "incgrenade",
                ) || item == String::from_str("smokegrenade") || item == String::from_str(
                    "flashbang",
                ) || item == String::from_str("molotov");
                if utility {
                    p.latest_muna = Some(item.clone());
                    p.muna_tick = self.current_tick;
                }
                p.equipped = item;
                self.players.insert(id as i64, p);
            },
            None => {},
        }
    }

    /// The informational in-hand correlation for a player: the item they
    /// hold and how many ticks ago their last utility was equipped, when
    /// that falls inside the 2.5-second window.
    pub open spec fn muna_spec(
        players: Map<i64, PlayerV>,
        id: i32,
        tick: i32,
        rate: i32,
    ) -> Option<(Seq<char>, int)> {
        if players.contains_key(id as i64) && in_utility_window(
            tick - players[id as i64].muna_tick,
            rate as int,
        ) {
            Some((players[id as i64].equipped, tick - players[id as i64].muna_tick))
        } else {
            None
        }
    }

    /// The item a player holds with a utility equipped within the last 2.5
    /// game-seconds, and how many ticks ago, exactly as `muna_spec` says.
    pub fn muna_in_hand(&self, id: i32) -> (res: Option<(String, i64)>)
        requires
            self.wf(),
        ensures
            match res {
                Some((item, dt)) => Self::muna_spec(
                    self.players@,
                    id,
                    self.current_tick,
                    self.tickrate,
                ) == Some((item@, dt as int)),
                None => Self::muna_spec(self.players@, id, self.current_tick, self.tickrate)
                    is None,
            },
    {
        match self.players.get(id as i64) {
            Some(p) => {
                let dt: i64 = (self.current_tick as i64) - (p.muna_tick as i64);
                if 10 * dt < 25 * (self.tickrate as i64) {
                    Some((p.equipped.clone(), dt))
                } else {
                    None
                }
            },
            None => None,
        }
    }

    /// Reset every tracked user's round standing to survival, ready for the
    /// next round: the tracked users are exactly the roster.
    pub fn clear_kast(&mut self)
        requires
            old(self).wf(),
        ensures
            final(self).wf(),
            Self::frame_core(*old(self), *final(self)),
            final(self).current_round == old(self).current_round,
            final(self).score == old(self).score,
            final(self).players == old(self).players,
            final(self).teams == old(self).teams,
            final(self).current_round_player_state@ == Map::new(
                |k: i64| old(self).players@.contains_key(k),
                |k: i64| PlayerState::Survived,
            ),
    {
        let ghost kseq = old(self).players.pairs_seq();
        let ks = self.players.keys();
        let mut fresh: AssocMap<PlayerState> = AssocMap::new();
        let mut j: usize = 0;
        while j < ks.len()
            invariant
                fresh.wf(),
                old(self).wf(),
                j <= ks@.len(),
                ks@.len() == kseq.len(),
                forall|i: int| 0 <= i < kseq.len() ==> ks@[i] == kseq[i].0,
                kseq == old(self).players.pairs_seq(),
                fresh@ == Map::new(
                    |k: i64| exists|i: int| 0 <= i < j && kseq[i].0 == k,
                    |k: i64| PlayerState::Survived,
                ),
            decreases ks@.len() - j,
        {
            fresh.insert(ks[j], PlayerState::Survived);
            proof {
                assert(fresh@ =~= Map::new(
                    |k: i64| exists|i: int| 0 <= i < j + 1 && kseq[i].0 == k,
                    |k: i64| PlayerState::Survived,
                ));
            }
            j = j + 1;
        }
        self.current_round_player_state = fresh;
        proof {
            assert(self.current_round_player_state@ =~= Map::new(
                |k: i64| old(self).players@.contains_key(k),
                |k: i64| PlayerState::Survived,
            )) by {
                assert forall|k: i64| #[trigger] old(self).players@.contains_key(k) implies (
                exists|i: int| 0 <= i < kseq.len() && kseq[i].0 == k) by {
                    lemma_as_map_contains(kseq, k);
                }
                assert forall|k: i64| (exists|i: int|
                    0 <= i < kseq.len() && kseq[i].0 == k) implies #[trigger] old(
                    self,
                ).players@.contains_key(k) by {
                    lemma_as_map_contains(kseq, k);
                }
            }
        }
    }
    /// The current match time, minutes and seconds, as "<m>m <s>s".
    pub fn current_time(&self) -> (r: String)
        requires
            self.tickrate > 0,
            self.current_tick >= 0,
        ensures
            r@ == crate::textfmt::dec_str(
                ((self.current_tick as int / self.tickrate as int) / 60) as nat,
            ) + "m "@ + crate::textfmt::dec_str(
                ((self.current_tick as int / self.tickrate as int) % 60) as nat,
            ) + "s"@,
    {
        let second = self.current_tick / self.tickrate;
        let minutes = crate::textfmt::u64_to_dec((second / 60) as u64);
        let seconds = crate::textfmt::u64_to_dec((second % 60) as u64);
        let out = minutes.concat("m ").concat(seconds.as_str()).concat("s");
        out
    }

    /// Whether some stored player carries this stable identity.
    pub open spec fn has_xuid(m: Map<i64, PlayerV>, x: int) -> bool {
        exists|k: i64| m.contains_key(k) && m[k].info.xuid == x
    }

    /// The least key among the stored players carrying this identity.
    pub open spec fn min_xuid_key(m: Map<i64, PlayerV>, x: int) -> i64 {
        choose|k: i64|
            m.contains_key(k) && m[k].info.xuid == x && (forall|k2: i64|
                m.contains_key(k2) && m[k2].info.xuid == x ==> k <= k2)
    }

    /// Fold freshly decoded identity records into the roster, in order: a
    /// record whose identity some stored player already carries moves that
    /// player — statistics preserved, identity refreshed — under the
    /// record's in-match user id; a new identity starts a fresh record.
    pub open spec fn reconcile(
        m: Map<i64, PlayerV>,
        recs: Seq<(i64, PlayerInfoV)>,
    ) -> Map<i64, PlayerV>
        decreases recs.len(),
    {
        if recs.len() == 0 {
            m
        } else {
            let k = recs[0].0;
            let info = recs[0].1;
            let m1 = if Self::has_xuid(m, info.xuid) {
                let k0 = Self::min_xuid_key(m, info.xuid);
                m.remove(k0).insert(k, PlayerV { info, ..m[k0] })
            } else {
                m.insert(k, fresh_player(info))
            };
            Self::reconcile(m1, recs.drop_first())
        }
    }

    /// The least stored key carrying this identity, if any.
    fn min_key_with_xuid(&self, x: i64) -> (r: Option<i64>)
        requires
            self.wf(),
        ensures
            match r {
                Some(k0) => self.players@.contains_key(k0) && self.players@[k0].info.xuid
                    == x as int && (forall|k2: i64|
                    self.players@.contains_key(k2) && self.players@[k2].info.xuid == x as int
                        ==> k0 <= k2),
                None => !Self::has_xuid(self.players@, x as int),
            },
    {
        let ghost pseq = self.players.pairs_seq();
        let n = self.players.length();
        let mut best: Option<i64> = None;
        let mut j: usize = 0;
        while j < n
            invariant
                self.wf(),
                j <= n,
                n == pseq.len(),
                pseq == self.players.pairs_seq(),
                distinct_keys(pseq),
                match best {
                    Some(b) => self.players@.contains_key(b) && self.players@[b].info.xuid
                        == x as int && (forall|i: int|
                        0 <= i < j && pseq[i].1.info.xuid == x as int ==> b <= pseq[i].0),
                    None => forall|i: int| 0 <= i < j ==> pseq[i].1.info.xuid != x as int,
                },
            decreases n - j,
        {
            let p = self.players.val_at(j);
            proof {
                lemma_as_map_at(pseq, j as int);
            }
            if p.info.xuid == x {
                let k = self.players.key_at(j);
                best = match best {
                    Some(b) => if k < b {
                        Some(k)
                    } else {
                        Some(b)
                    },
                    None => Some(k),
                };
            }
            j = j + 1;
        }
        proof {
            match best {
                Some(b) => {
                    assert forall|k2: i64|
                        self.players@.contains_key(k2) && self.players@[k2].info.xuid
                            == x as int implies b <= k2 by {
                        lemma_as_map_contains(pseq, k2);
                        let i = choose|i: int| 0 <= i < pseq.len() && pseq[i].0 == k2;
                        lemma_as_map_at(pseq, i);
                    }
                },
                None => {
                    if Self::has_xuid(self.players@, x as int) {
                        let k2 = choose|k2: i64|
                            self.players@.contains_key(k2) && self.players@[k2].info.xuid
                                == x as int;
                        lemma_as_map_contains(pseq, k2);
                        let i = choose|i: int| 0 <= i < pseq.len() && pseq[i].0 == k2;
                        lemma_as_map_at(pseq, i);
                    }
                },
            }
        }
        best
    }

    /// Fold a batch of decoded identity records into the roster, exactly as
    /// `reconcile` says.
    fn apply_player_records(&mut self, recs: &AssocMap<PlayerInfo>)
        requires
            old(self).wf(),
            recs.wf(),
        ensures
            final(self).wf(),
            Self::frame_core(*old(self), *final(self)),
            final(self).current_round == old(self).current_round,
            final(self).score == old(self).score,
            final(self).teams == old(self).teams,
            final(self).current_round_player_state == old(self).current_round_player_state,
            final(self).players@ == Self::reconcile(old(self).players@, recs.pairs_seq()),
    {
        let ghost rseq = recs.pairs_seq();
        let ghost orig = old(self).players@;
        let n = recs.length();
        let mut j: usize = 0;
        proof {
            assert(rseq.skip(0) =~= rseq);
        }
        while j < n
            invariant
                self.wf(),
                recs.wf(),
                j <= n,
                n == rseq.len(),
                rseq == recs.pairs_seq(),
                self.header == old(self).header,
                self.tickrate == old(self).tickrate,
                self.player_table == old(self).player_table,
                self.table_id == old(self).table_id,
                self.current_tick == old(self).current_tick,
                self.events == old(self).events,
                self.current_round == old(self).current_round,
                self.score == old(self).score,
                self.teams == old(self).teams,
                self.current_round_player_state == old(self).current_round_player_state,
                Self::reconcile(orig, rseq) == Self::reconcile(self.players@, rseq.skip(j as int)),
            decreases n - j,
        {
            let k = recs.key_at(j);
            let info = recs.val_at(j).duplicate();
            let ghost pre = self.players@;
            proof {
                assert(rseq.skip(j as int)[0] == rseq[j as int]);
                assert(rseq.skip(j as int).drop_first() =~= rseq.skip(j + 1));
            }
            match self.min_key_with_xuid(info.xuid) {
                Some(k0) => {
                    proof {
                        assert(Self::has_xuid(pre, info@.xuid));
                        let kc = Self::min_xuid_key(pre, info@.xuid);
                        assert(pre.contains_key(kc) && pre[kc].info.xuid == info@.xuid && (
                        forall|k2: i64|
                            pre.contains_key(k2) && pre[k2].info.xuid == info@.xuid ==> kc
                                <= k2)) by {
                            assert(pre.contains_key(k0) && pre[k0].info.xuid == info@.xuid && (
                            forall|k2: i64|
                                pre.contains_key(k2) && pre[k2].info.xuid == info@.xuid ==> k0
                                    <= k2));
                        }
                        assert(kc == k0);
                    }
                    match self.players.remove(k0) {
                        Some(p) => {
                            let mut p = p;
                            p.info = info;
                            self.players.insert(k, p);
                        },
                        None => {
                            proof {
                                assert(false);
                            }
                        },
                    }
                },
                None => {
                    self.players.insert(k, Player::new(info));
                },
            }
            j = j + 1;
        }
        proof {
            assert(rseq.skip(n as int) =~= Seq::<(i64, PlayerInfoV)>::empty());
        }
    }

    /// Nothing about the aggregate changed.
    pub open spec fn state_unchanged(pre: State, post: State) -> bool {
        &&& Self::frame_core(pre, post)
        &&& post.current_round == pre.current_round
        &&& post.score == pre.score
        &&& post.players == pre.players
        &&& post.current_round_player_state == pre.current_round_player_state
        &&& post.teams == pre.teams
    }

    /// What one typed event does to the aggregate, and which informational
    /// note it surfaces: the full dispatch table of the state machine.
    pub open spec fn event_transition(
        pre: State,
        post: State,
        ev: crate::game_event::EventV,
        note: Option<UtilityNote>,
    ) -> bool {
        match ev {
            crate::game_event::EventV::Filtered => Self::state_unchanged(pre, post) && note
                is None,
            crate::game_event::EventV::Other(_) => Self::state_unchanged(pre, post) && note
                is None,
            crate::game_event::EventV::BeginNewMatch => {
                &&& note is None
                &&& Self::frame_core(pre, post)
                &&& post.current_round == 0
                &&& post.score == (0i32, 0i32)
                &&& post.teams == pre.teams
                &&& post.current_round_player_state == pre.current_round_player_state
                &&& post.players@ == Map::new(
                    |k: i64| pre.players@.contains_key(k),
                    |k: i64| fresh_player(pre.players@[k].info),
                )
            },
            crate::game_event::EventV::RoundStart => {
                &&& note is None
                &&& Self::frame_core(pre, post)
                &&& post.current_round == sat_inc(pre.current_round as int)
                &&& post.score == (if post.current_round == 16 {
                    (pre.score.1, pre.score.0)
                } else {
                    pre.score
                })
                &&& post.players == pre.players
                &&& post.current_round_player_state == pre.current_round_player_state
                &&& post.teams == pre.teams
            },
            crate::game_event::EventV::RoundOfficiallyEnded => {
                &&& note is None
                &&& Self::frame_core(pre, post)
                &&& post.current_round == pre.current_round
                &&& post.score == pre.score
                &&& post.teams == pre.teams
                &&& post.players@ == Map::new(
                    |k: i64| pre.players@.contains_key(k),
                    |k: i64|
                        if pre.current_round_player_state@.contains_key(k) && earns_credit(
                            pre.current_round_player_state@[k],
                        ) {
                            bump_kast(pre.players@[k])
                        } else {
                            pre.players@[k]
                        },
                )
                &&& post.current_round_player_state@ == Map::new(
                    |k: i64| pre.players@.contains_key(k),
                    |k: i64| PlayerState::Survived,
                )
            },
            crate::game_event::EventV::RoundEnd(winner) => {
                let s0: int = if winner {
                    sat_inc(pre.score.0 as int)
                } else {
                    pre.score.0 as int
                };
                let s1: int = if winner {
                    pre.score.1 as int
                } else {
                    sat_inc(pre.score.1 as int)
                };
                &&& note is None
                &&& Self::frame_core(pre, post)
                &&& post.current_round == pre.current_round
                &&& post.score.0 == s0
                &&& post.score.1 == s1
                &&& post.teams == pre.teams
                &&& post.current_round_player_state == pre.current_round_player_state
                &&& (if s0 == 16 || s1 == 16 {
                    post.players@ == Map::new(
                        |k: i64| pre.players@.contains_key(k),
                        |k: i64|
                            if pre.current_round_player_state@.contains_key(k) && earns_credit(
                                pre.current_round_player_state@[k],
                            ) {
                                bump_kast(pre.players@[k])
                            } else {
                                pre.players@[k]
                            },
                    )
                } else {
                    post.players == pre.players
                })
            },
            crate::game_event::EventV::ItemEquip(u, item) => {
                &&& note is None
                &&& Self::frame_core(pre, post)
                &&& post.current_round == pre.current_round
                &&& post.score == pre.score
                &&& post.teams == pre.teams
                &&& post.current_round_player_state == pre.current_round_player_state
                &&& post.players@ == Self::equip_applied(
                    pre.players@,
                    u as i32,
                    item,
                    pre.current_tick,
                )
            },
            crate::game_event::EventV::PlayerSpawn(u, side) => {
                &&& note is None
                &&& Self::frame_core(pre, post)
                &&& post.current_round == pre.current_round
                &&& post.score == pre.score
                &&& post.players == pre.players
                &&& post.current_round_player_state == pre.current_round_player_state
                &&& post.teams@ == pre.teams@.insert((u as i32) as i64, side)
            },
            crate::game_event::EventV::PlayerDeath { victim, killer, assist, flash_assist, weapon } => {
                let v32 = victim as i32;
                let k32 = match killer {
                    Some(k) => Some(k as i32),
                    None => None,
                };
                let a32 = match assist {
                    Some(a) => Some(a as i32),
                    None => None,
                };
                &&& Self::frame_core(pre, post)
                &&& post.current_round == pre.current_round
                &&& post.score == pre.score
                &&& post.teams == pre.teams
                &&& post.current_round_player_state@ == Self::kast_promoted(
                    Self::kast_marked(
                        pre.current_round_player_state@,
                        k32,
                        a32,
                        v32,
                        pre.current_tick,
                    ),
                    v32,
                    pre.current_tick,
                    pre.tickrate,
                )
                &&& (match Self::stats_applied(
                    pre.players@,
                    pre.teams@,
                    v32,
                    k32,
                    a32,
                    flash_assist,
                ) {
                    Some(m) => post.players@ == m,
                    None => post.players == pre.players,
                })
                &&& (match Self::muna_spec(pre.players@, v32, pre.current_tick, pre.tickrate) {
                    Some((item, dt)) => note matches Some(n) && n.user_id == v32 && n.item@ == item
                        && n.age_ticks == dt,
                    None => note is None,
                })
            },
        }
    }

    /// A `usize` counter bumped by one, stopping at the top.
    pub open spec fn sat_usize_inc(x: int) -> int {
        if x < usize::MAX {
            x + 1
        } else {
            x
        }
    }

    /// What a "create string table" command does: a table by another name
    /// only moves the id counter while the identity table is still unseen; a
    /// create of the identity table installs the freshly decoded table and
    /// starts a fresh record for every surfaced identity; a failure changes
    /// nothing.
    pub open spec fn create_transition(
        pre: State,
        post: State,
        msg: CreateStringTableMsg,
        res: Result<Option<UtilityNote>, DemoError>,
    ) -> bool {
        &&& post.header == pre.header
        &&& post.tickrate == pre.tickrate
        &&& post.current_tick == pre.current_tick
        &&& post.events == pre.events
        &&& post.current_round == pre.current_round
        &&& post.score == pre.score
        &&& post.teams == pre.teams
        &&& post.current_round_player_state == pre.current_round_player_state
        &&& match res {
            Err(e) => {
                &&& post.players == pre.players
                &&& post.player_table == pre.player_table
                &&& post.table_id == pre.table_id
                &&& {
                    ||| (msg.name is None && e == crate::bitreader::format_err(0))
                    ||| (is_userinfo(msg) && !create_fields_ok(msg) && e
                        == crate::bitreader::format_err(0))
                    ||| (is_userinfo(msg) && create_fields_ok(msg) && table_decode(
                        create_model(msg),
                        msg.string_data->Some_0@,
                        entry_count(msg.num_entries->Some_0),
                    ) == DecodeOutcome::Fail(e))
                }
            },
            Ok(note) => {
                &&& note is None
                &&& {
                    ||| (msg.name matches Some(nm) && nm@ != "userinfo"@ && post.players
                        == pre.players && post.player_table == pre.player_table && post.table_id
                        == (if pre.player_table is None {
                        Self::sat_usize_inc(pre.table_id as int)
                    } else {
                        pre.table_id as int
                    }))
                    ||| (is_userinfo(msg) && create_fields_ok(msg) && (table_decode(
                        create_model(msg),
                        msg.string_data->Some_0@,
                        entry_count(msg.num_entries->Some_0),
                    ) matches DecodeOutcome::Done(m2, w, p) && (post.player_table matches Some(t)
                        && t.wf() && t.model() == m2) && post.table_id == pre.table_id
                        && post.players@ == Map::new(
                        |k: i64| pre.players@.contains_key(k) || w.contains_key(k),
                        |k: i64|
                            if w.contains_key(k) {
                                fresh_player(w[k])
                            } else {
                                pre.players@[k]
                            },
                    )))
                }
            },
        }
    }

    /// Whether an update command addresses the identity table's generation.
    pub open spec fn update_relevant(pre: State, msg: UpdateStringTableMsg) -> bool {
        pre.table_id <= 0x7FFF_FFFF && msg.table_id == Some(pre.table_id as i32)
    }

    /// What an "update string table" command does: an update for another
    /// table generation is ignored; one for the identity table advances the
    /// table's decode state and folds the surfaced identities into the
    /// roster by stable-identity match; an update arriving before any
    /// identity table exists, or one whose decode fails, changes the roster
    /// nothing.
    pub open spec fn update_transition(
        pre: State,
        post: State,
        msg: UpdateStringTableMsg,
        res: Result<Option<UtilityNote>, DemoError>,
    ) -> bool {
        &&& post.header == pre.header
        &&& post.tickrate == pre.tickrate
        &&& post.current_tick == pre.current_tick
        &&& post.events == pre.events
        &&& post.current_round == pre.current_round
        &&& post.score == pre.score
        &&& post.teams == pre.teams
        &&& post.current_round_player_state == pre.current_round_player_state
        &&& post.table_id == pre.table_id
        &&& match res {
            Ok(note) => {
                &&& note is None
                &&& {
                    ||| (!Self::update_relevant(pre, msg) && post.players == pre.players
                        && post.player_table == pre.player_table)
                    ||| (Self::update_relevant(pre, msg) && (pre.player_table matches Some(t0)
                        && msg.string_data is Some && msg.num_changed_entries is Some && (
                    table_decode(
                        t0.model(),
                        msg.string_data->Some_0@,
                        entry_count(msg.num_changed_entries->Some_0),
                    ) matches DecodeOutcome::Done(m2, w, p) && (post.player_table matches Some(t)
                        && t.wf() && t.model() == m2) && (exists|rs: Seq<(i64, PlayerInfoV)>|
                        {
                            &&& #[trigger] crate::assoc::as_map(rs) == w
                            &&& distinct_keys(rs)
                            &&& post.players@ == Self::reconcile(pre.players@, rs)
                        }))))
                }
            },
            Err(e) => {
                &&& post.players == pre.players
                &&& Self::update_relevant(pre, msg)
                &&& {
                    ||| (pre.player_table is None && e == crate::bitreader::format_err(0)
                        && post.player_table == pre.player_table)
                    ||| (pre.player_table matches Some(t0) && ((msg.string_data is None
                        || msg.num_changed_entries is None) && e == crate::bitreader::format_err(0)
                        && (post.player_table matches Some(t) && t.wf() && t.model()
                        == t0.model())))
                    ||| (pre.player_table matches Some(t0) && msg.string_data is Some
                        && msg.num_changed_entries is Some && table_decode(
                        t0.model(),
                        msg.string_data->Some_0@,
                        entry_count(msg.num_changed_entries->Some_0),
                    ) == DecodeOutcome::Fail(e) && (post.player_table matches Some(t) && t.wf()))
                }
            },
        }
    }

    /// Route one decoded command: table creates and updates feed the string
    /// table and the roster, a schema message replaces the event registry, a
    /// user message is decoded elsewhere and changes nothing here, and a
    /// game event drives the state machine.
    pub fn handle_command(&mut self, cmd: Cmd) -> (res: Result<Option<UtilityNote>, DemoError>)
        requires
            old(self).wf(),
            (cmd matches Cmd::CreateStringTable(m) ==> (m.string_data matches Some(d) ==> d@.len()
                * 8 <= usize::MAX)),
            (cmd matches Cmd::UpdateStringTable(m) ==> (m.string_data matches Some(d) ==> d@.len()
                * 8 <= usize::MAX)),
        ensures
            final(self).wf(),
            match cmd {
                Cmd::CreateStringTable(m) => Self::create_transition(
                    *old(self),
                    *final(self),
                    m,
                    res,
                ),
                Cmd::UpdateStringTable(m) => Self::update_transition(
                    *old(self),
                    *final(self),
                    m,
                    res,
                ),
                Cmd::UserMessage(_) => res matches Ok(n) && n is None && Self::state_unchanged(
                    *old(self),
                    *final(self),
                ),
                Cmd::GameEvent(m) => match res {
                    Ok(note) => crate::game_event::spec_parse_event(old(self).events@, m) matches
                        Ok(ev) && Self::event_transition(*old(self), *final(self), ev, note),
                    Err(e) => crate::game_event::spec_parse_event(old(self).events@, m) == Err::<
                        crate::game_event::EventV,
                        DemoError,
                    >(e) && Self::state_unchanged(*old(self), *final(self)),
                },
                Cmd::GameEventList(m) => {
                    &&& res matches Ok(n) && n is None
                    &&& final(self).events@ == crate::game_event::registry_of(m.descriptors@)
                    &&& final(self).header == old(self).header
                    &&& final(self).tickrate == old(self).tickrate
                    &&& final(self).player_table == old(self).player_table
                    &&& final(self).table_id == old(self).table_id
                    &&& final(self).current_tick == old(self).current_tick
                    &&& final(self).current_round == old(self).current_round
                    &&& final(self).score == old(self).score
                    &&& final(self).players == old(self).players
                    &&& final(self).current_round_player_state == old(
                        self,
                    ).current_round_player_state
                    &&& final(self).teams == old(self).teams
                },
            },
    {
        match cmd {
            Cmd::CreateStringTable(m) => {
                match crate::stringtables::create_string_table(m) {
                    Err(e) => Err(e),
                    Ok(None) => {
                        if self.player_table.is_none() {
                            if self.table_id < usize::MAX {
                                self.table_id = self.table_id + 1;
                            }
                        }
                        Ok(None)
                    },
                    Ok(Some((t, recs))) => {
                        self.player_table = Some(t);
                        let ghost pt = self.player_table;
                        let ghost orig = old(self).players@;
                        let ghost rseq = recs.pairs_seq();
                        let ghost rm = recs@;
                        let n = recs.length();
                        let mut j: usize = 0;
                        while j < n
                            invariant
                                self.players.wf(),
                                recs.wf(),
                                j <= n,
                                n == rseq.len(),
                                rseq == recs.pairs_seq(),
                                rm == recs@,
                                distinct_keys(rseq),
                                orig == old(self).players@,
                                self.header == old(self).header,
                                self.tickrate == old(self).tickrate,
                                self.current_tick == old(self).current_tick,
                                self.events == old(self).events,
                                self.current_round == old(self).current_round,
                                self.score == old(self).score,
                                self.teams == old(self).teams,
                                self.current_round_player_state == old(
                                    self,
                                ).current_round_player_state,
                                self.table_id == old(self).table_id,
                                self.player_table == pt,
                                self.players@ == Map::new(
                                    |k: i64| orig.contains_key(k) || (exists|i: int|
                                        0 <= i < j && rseq[i].0 == k),
                                    |k: i64|
                                        if exists|i: int| 0 <= i < j && rseq[i].0 == k {
                                            fresh_player(rm[k])
                                        } else {
                                            orig[k]
                                        },
                                ),
                            decreases n - j,
                        {
                            let k = recs.key_at(j);
                            let info = recs.val_at(j).duplicate();
                            proof {
                                lemma_as_map_at(rseq, j as int);
                            }
                            self.players.insert(k, Player::new(info));
                            proof {
                                assert(self.players@ =~= Map::new(
                                    |k2: i64| orig.contains_key(k2) || (exists|i: int|
                                        0 <= i < j + 1 && rseq[i].0 == k2),
                                    |k2: i64|
                                        if exists|i: int| 0 <= i < j + 1 && rseq[i].0 == k2 {
                                            fresh_player(rm[k2])
                                        } else {
                                            orig[k2]
                                        },
                                )) by {
                                    assert forall|k2: i64|
                                        orig.contains_key(k2) || (exists|i: int|
                                            0 <= i < j + 1 && rseq[i].0 == k2) implies ({
                                        let cond_new = exists|i: int|
                                            0 <= i < j + 1 && rseq[i].0 == k2;
                                        self.players@[k2] == if cond_new {
                                            fresh_player(rm[k2])
                                        } else {
                                            orig[k2]
                                        }
                                    }) by {
                                        if k2 == k {
                                            assert(rseq[j as int].0 == k2);
                                        } else {
                                            assert(forall|i: int|
                                                0 <= i < j + 1 && rseq[i].0 == k2 ==> i < j);
                                        }
                                    }
                                }
                            }
                            j = j + 1;
                        }
                        proof {
                            assert(self.players@ =~= Map::new(
                                |k: i64| orig.contains_key(k) || rm.contains_key(k),
                                |k: i64|
                                    if rm.contains_key(k) {
                                        fresh_player(rm[k])
                                    } else {
                                        orig[k]
                                    },
                            )) by {
                                assert forall|k: i64| #[trigger] rm.contains_key(k) implies (
                                exists|i: int| 0 <= i < rseq.len() && rseq[i].0 == k) by {
                                    lemma_as_map_contains(rseq, k);
                                }
                                assert forall|k: i64|
                                    (exists|i: int|
                                        0 <= i < rseq.len() && rseq[i].0
                                            == k) implies #[trigger] rm.contains_key(k) by {
                                    lemma_as_map_contains(rseq, k);
                                }
                            }
                        }
                        Ok(None)
                    },
                }
            },
            Cmd::UpdateStringTable(m) => {
                let relevant = self.table_id <= 0x7FFF_FFFF && (match m.table_id {
                    Some(tid) => {
                        let own: i32 = self.table_id as i32;
                        tid == own
                    },
                    None => false,
                });
                if !relevant {
                    return Ok(None);
                }
                match self.player_table.take() {
                    None => Err(DemoError::Format { bit_offset: 0 }),
                    Some(mut t) => {
                        match crate::stringtables::update_string_table(&mut t, m) {
                            Ok(recs) => {
                                self.player_table = Some(t);
                                let ghost orig = self.players@;
                                self.apply_player_records(&recs);
                                proof {
                                    assert(crate::assoc::as_map(recs.pairs_seq()) == recs@
                                        && distinct_keys(recs.pairs_seq()) && self.players@
                                        == Self::reconcile(orig, recs.pairs_seq()));
                                }
                                Ok(None)
                            },
                            Err(e) => {
                                self.player_table = Some(t);
                                Err(e)
                            },
                        }
                    },
                }
            },
            Cmd::UserMessage(_) => Ok(None),
            Cmd::GameEvent(m) => self.handle_game_event(m),
            Cmd::GameEventList(m) => {
                self.events = EventContext::new(read_event_names(m));
                Ok(None)
            },
        }
    }

    /// Route one typed game event into the state machine: the state moves
    /// exactly as `event_transition` says for the event the schema extracts,
    /// and an extraction failure changes nothing.
    pub fn handle_game_event(&mut self, msg: crate::messages::GameEventMsg) -> (res: Result<
        Option<UtilityNote>,
        DemoError,
    >)
        requires
            old(self).wf(),
        ensures
            final(self).wf(),
            match res {
                Ok(note) => crate::game_event::spec_parse_event(old(self).events@, msg) matches Ok(
                    ev,
                ) && Self::event_transition(*old(self), *final(self), ev, note),
                Err(e) => crate::game_event::spec_parse_event(old(self).events@, msg) == Err::<
                    crate::game_event::EventV,
                    DemoError,
                >(e) && Self::state_unchanged(*old(self), *final(self)),
            },
    {
        let ev = match self.events.parse_game_event(msg) {
            Ok(e) => e,
            Err(e) => {
                return Err(e);
            },
        };
        match ev {
            crate::game_event::Event::Filtered => Ok(None),
            crate::game_event::Event::BeginNewMatch => {
                self.clear_stats();
                Ok(None)
            },
            crate::game_event::Event::RoundStart => {
                self.handle_round_start();
                Ok(None)
            },
            crate::game_event::Event::RoundOfficiallyEnded => {
                let ghost mid_players = self.players@;
                self.update_player_kast_score();
                self.clear_kast();
                proof {
                    assert(self.current_round_player_state@ =~= Map::new(
                        |k: i64| old(self).players@.contains_key(k),
                        |k: i64| PlayerState::Survived,
                    ));
                }
                Ok(None)
            },
            crate::game_event::Event::RoundEnd(winner) => {
                if winner {
                    if self.score.0 < i32::MAX {
                        self.score = (self.score.0 + 1, self.score.1);
                    }
                } else {
                    if self.score.1 < i32::MAX {
                        self.score = (self.score.0, self.score.1 + 1);
                    }
                }
                if self.score.0 == 16 || self.score.1 == 16 {
                    self.update_player_kast_score();
                }
                Ok(None)
            },
            crate::game_event::Event::ItemEquip(uid, item) => {
                self.equip(uid, item);
                Ok(None)
            },
            crate::game_event::Event::PlayerSpawn(uid, team) => {
                self.teams.insert(uid as i64, team);
                Ok(None)
            },
            crate::game_event::Event::PlayerDeath { victim, killer, assist, flash_assist, weapon } => {
                let note = match self.muna_in_hand(victim) {
                    Some((item, dt)) => Some(UtilityNote { user_id: victim, item, age_ticks: dt }),
                    None => None,
                };
                self.update_stats(victim, killer, assist, flash_assist, weapon.as_str());
                Ok(note)
            },
            crate::game_event::Event::Other(_) => Ok(None),
        }
    }
    /// The players stored on one side, in stored order: the roster readout
    /// is restricted to players with a recorded team side.
    pub open spec fn side_views(
        pseq: Seq<(i64, PlayerV)>,
        teams: Map<i64, bool>,
        side: bool,
    ) -> Seq<PlayerV> {
        pseq.filter(|pr: (i64, PlayerV)| teams.contains_key(pr.0) && teams[pr.0] == side)
            .map_values(|pr: (i64, PlayerV)| pr.1)
    }

    /// Copies of the stored players on one side, in stored order.
    fn collect_side(&self, side: bool) -> (r: Vec<Player>)
        requires
            self.wf(),
        ensures
            views_of(r@) == Self::side_views(self.players.pairs_seq(), self.teams@, side),
    {
        let ghost pseq = self.players.pairs_seq();
        let ghost pred = |pr: (i64, PlayerV)|
            self.teams@.contains_key(pr.0) && self.teams@[pr.0] == side;
        let mut out: Vec<Player> = Vec::new();
        let n = self.players.length();
        let mut j: usize = 0;
        proof {
            reveal(Seq::filter);
            assert(pseq.take(0) =~= Seq::<(i64, PlayerV)>::empty());
            assert(views_of(out@) =~= Self::side_views(pseq.take(0), self.teams@, side));
        }
        while j < n
            invariant
                self.wf(),
                j <= n,
                n == pseq.len(),
                pseq == self.players.pairs_seq(),
                pred == (|pr: (i64, PlayerV)|
                    self.teams@.contains_key(pr.0) && self.teams@[pr.0] == side),
                views_of(out@) == Self::side_views(pseq.take(j as int), self.teams@, side),
            decreases n - j,
        {
            let k = self.players.key_at(j);
            let p = self.players.val_at(j);
            proof {
                reveal(Seq::filter);
                assert(pseq.take(j + 1).drop_last() =~= pseq.take(j as int));
                assert(pseq.take(j + 1).last() == pseq[j as int]);
            }
            let keep = match self.teams.get(k) {
                Some(t) => *t == side,
                None => false,
            };
            if keep {
                out.push(p.duplicate());
                proof {
                    reveal(Seq::filter);
                    assert(pseq.take(j + 1).filter(pred) =~= pseq.take(j as int).filter(pred).push(
                        pseq[j as int],
                    ));
                    assert(Self::side_views(pseq.take(j + 1), self.teams@, side) =~= Self::side_views(
                        pseq.take(j as int),
                        self.teams@,
                        side,
                    ).push(pseq[j as int].1));
                    assert(views_of(out@) =~= Self::side_views(pseq.take(j + 1), self.teams@, side));
                }
            } else {
                proof {
                    reveal(Seq::filter);
                    assert(pseq.take(j + 1).filter(pred) =~= pseq.take(j as int).filter(pred));
                    assert(views_of(out@) =~= Self::side_views(pseq.take(j + 1), self.teams@, side));
                }
            }
            j = j + 1;
        }
        proof {
            assert(pseq.take(n as int) =~= pseq);
        }
        out
    }

    /// The final readout: two ordered player lists, winners first, each
    /// restricted to players with a recorded team side and sorted by the
    /// stable key (descending kills, then descending assists, ascending
    /// deaths, ascending identity). On a level score the second side is
    /// read out first.
    pub fn final_rosters(&self) -> (r: (Vec<Player>, Vec<Player>))
        requires
            self.wf(),
        ensures
            ({
                let win_side = self.score.0 > self.score.1;
                &&& views_of(r.0@).to_multiset() == Self::side_views(
                    self.players.pairs_seq(),
                    self.teams@,
                    win_side,
                ).to_multiset()
                &&& views_of(r.1@).to_multiset() == Self::side_views(
                    self.players.pairs_seq(),
                    self.teams@,
                    !win_side,
                ).to_multiset()
                &&& (forall|i: int, j: int|
                    0 <= i < j < r.0@.len() ==> player_le(r.0@[i]@, r.0@[j]@))
                &&& (forall|i: int, j: int|
                    0 <= i < j < r.1@.len() ==> player_le(r.1@[i]@, r.1@[j]@))
            }),
    {
        let a = sort_players(self.collect_side(true));
        let b = sort_players(self.collect_side(false));
        if self.score.0 > self.score.1 {
            (a, b)
        } else {
            (b, a)
        }
    }
}

/// The trade law: a user whose unavenged death was at this victim's hands is
/// promoted to Traded exactly when the avenging kill lands strictly inside
/// the 18.2-second window; at or past the boundary the user stays Died and
/// so earns no per-round credit.
pub proof fn lemma_trade_window(
    m: Map<i64, PlayerState>,
    k: i64,
    x: i32,
    t: i32,
    victim: i32,
    tick: i32,
    rate: i32,
)
    requires
        m.contains_key(k),
        m[k] == PlayerState::Died(x, t),
        x == victim,
    ensures
        State::kast_promoted(m, victim, tick, rate).contains_key(k),
        in_trade_window(tick - t, rate as int) ==> State::kast_promoted(m, victim, tick, rate)[k]
            == PlayerState::Traded,
        !in_trade_window(tick - t, rate as int) ==> State::kast_promoted(m, victim, tick, rate)[k]
            == PlayerState::Died(x, t) && !earns_credit(
            State::kast_promoted(m, victim, tick, rate)[k],
        ),
{
}

/// The text `show_key` renders for one event field slot: a tag naming the
/// populated variant, then the value. A float value is shown as its raw
/// bits, and a wide-string value is decoded lossily.
pub open spec fn spec_show_key(k: crate::messages::KeyVal) -> Seq<char> {
    match k {
        crate::messages::KeyVal::VString(s) => "[string] "@ + s@,
        crate::messages::KeyVal::VFloat(bits) => "[float bits] "@ + crate::textfmt::dec_str(
            bits as nat,
        ),
        crate::messages::KeyVal::VLong(n) => "[long] "@ + crate::textfmt::dec_str_signed(n as int),
        crate::messages::KeyVal::VShort(n) => "[short] "@ + crate::textfmt::dec_str_signed(
            n as int,
        ),
        crate::messages::KeyVal::VByte(n) => "[byte] "@ + crate::textfmt::dec_str_signed(n as int),
        crate::messages::KeyVal::VBool(b) => "[bool] "@ + (if b {
            "true"@
        } else {
            "false"@
        }),
        crate::messages::KeyVal::VUint64(n) => "[u64] "@ + crate::textfmt::dec_str(n as nat),
        crate::messages::KeyVal::VWString(bytes) => "[wstring] "@ + crate::bitreader::lossy_utf8(
            bytes@,
        ),
        crate::messages::KeyVal::VNone => "[empty]"@,
    }
}

/// Render one event field slot for display, exactly as `spec_show_key` says.
pub fn show_key(k: &crate::messages::KeyVal) -> (r: String)
    ensures
        r@ == spec_show_key(*k),
{
    match k {
        crate::messages::KeyVal::VString(s) => String::from_str("[string] ").concat(s.as_str()),
        crate::messages::KeyVal::VFloat(bits) => String::from_str("[float bits] ").concat(
            crate::textfmt::u64_to_dec(*bits as u64).as_str(),
        ),
        crate::messages::KeyVal::VLong(n) => String::from_str("[long] ").concat(
            crate::textfmt::i64_to_dec(*n as i64).as_str(),
        ),
        crate::messages::KeyVal::VShort(n) => String::from_str("[short] ").concat(
            crate::textfmt::i64_to_dec(*n as i64).as_str(),
        ),
        crate::messages::KeyVal::VByte(n) => String::from_str("[byte] ").concat(
            crate::textfmt::i64_to_dec(*n as i64).as_str(),
        ),
        crate::messages::KeyVal::VBool(b) => String::from_str("[bool] ").concat(
            if *b {
                "true"
            } else {
                "false"
            },
        ),
        crate::messages::KeyVal::VUint64(n) => String::from_str("[u64] ").concat(
            crate::textfmt::u64_to_dec(*n).as_str(),
        ),
        crate::messages::KeyVal::VWString(bytes) => String::from_str("[wstring] ").concat(
            crate::bitreader::lossy_string(bytes.as_slice()).as_str(),
        ),
        crate::messages::KeyVal::VNone => String::from_str("[empty]"),
    }
}

/// The players of a sequence, as their mathematical records.
pub open spec fn views_of(s: Seq<Player>) -> Seq<PlayerV> {
    s.map_values(|p: Player| p@)
}

/// The stable readout order: primarily descending kills, then descending
/// assists, then ascending deaths, and finally ascending stable identity as
/// the deterministic tie-break.
pub open spec fn player_le(a: PlayerV, b: PlayerV) -> bool {
    ||| a.kills > b.kills
    ||| (a.kills == b.kills && (a.assists > b.assists || (a.assists == b.assists && (a.deaths
        < b.deaths || (a.deaths == b.deaths && a.info.xuid <= b.info.xuid)))))
}

/// Compare two players in the stable readout order.
fn player_le_exec(a: &Player, b: &Player) -> (r: bool)
    ensures
        r == player_le(a@, b@),
{
    if a.kills != b.kills {
        a.kills > b.kills
    } else if a.assists != b.assists {
        a.assists > b.assists
    } else if a.deaths != b.deaths {
        a.deaths < b.deaths
    } else {
        a.info.xuid <= b.info.xuid
    }
}

/// Sort players into the stable readout order, keeping exactly the same
/// records.
fn sort_players(input: Vec<Player>) -> (r: Vec<Player>)
    ensures
        views_of(r@).to_multiset() == views_of(input@).to_multiset(),
        forall|i: int, j: int| 0 <= i < j < r@.len() ==> player_le(r@[i]@, r@[j]@),
{
    let ghost gin = input@;
    let mut rest = input;
    let mut out: Vec<Player> = Vec::new();
    proof {
        broadcast use vstd::seq_lib::group_seq_properties;

        assert(views_of(out@) =~= Seq::<PlayerV>::empty());
        assert(views_of(out@).to_multiset().add(views_of(rest@).to_multiset()) =~= views_of(
            gin,
        ).to_multiset());
    }
    while rest.len() > 0
        invariant
            views_of(out@).to_multiset().add(views_of(rest@).to_multiset()) == views_of(
                gin,
            ).to_multiset(),
            forall|i: int, j: int| 0 <= i < j < out@.len() ==> player_le(out@[i]@, out@[j]@),
        decreases rest@.len(),
    {
        let ghost vrest = views_of(rest@);
        let ghost vout = views_of(out@);
        let p = rest.remove(0);
        proof {
            vrest.to_multiset_ensures();
            assert(views_of(rest@) =~= vrest.remove(0));
            assert(vrest.remove(0).to_multiset() =~= vrest.to_multiset().remove(vrest[0]));
            assert(vrest[0] == p@);
        }
        let mut pos: usize = 0;
        loop
            invariant
                pos <= out@.len(),
                forall|i: int| 0 <= i < pos ==> player_le(out@[i]@, p@),
            ensures
                pos <= out@.len(),
                forall|i: int| 0 <= i < pos ==> player_le(out@[i]@, p@),
                pos < out@.len() ==> !player_le(out@[pos as int]@, p@),
            decreases out@.len() - pos,
        {
            if pos == out.len() {
                break ;
            }
            if player_le_exec(&out[pos], &p) {
                pos = pos + 1;
            } else {
                break ;
            }
        }
        out.insert(pos, p);
        proof {
            let vnew = views_of(out@);
            assert(vnew =~= vout.insert(pos as int, p@));
            vnew.to_multiset_ensures();
            assert(vnew.remove(pos as int) =~= vout);
            assert(vnew.remove(pos as int).to_multiset() =~= vnew.to_multiset().remove(
                vnew[pos as int],
            ));
            assert(vnew[pos as int] == p@);
            vnew.to_multiset_ensures();
            assert(vnew.to_multiset().contains(p@)) by {
                assert(vnew[pos as int] == p@);
                assert(vnew.contains(p@));
            }
            assert(vnew.to_multiset() =~= vout.to_multiset().insert(p@)) by {
                assert(vout.to_multiset() == vnew.to_multiset().remove(p@));
            }
            assert(vnew.to_multiset().add(views_of(rest@).to_multiset()) =~= views_of(
                gin,
            ).to_multiset()) by {
                assert(views_of(rest@).to_multiset() == vrest.to_multiset().remove(p@));
                assert(vrest.to_multiset().contains(p@)) by {
                    vrest.to_multiset_ensures();
                    assert(vrest[0] == p@);
                    assert(vrest.contains(p@));
                }
            }
            assert forall|i: int, j: int|
                0 <= i < j < out@.len() implies player_le(out@[i]@, out@[j]@) by {
                if j < pos {
                } else if i < pos && j == pos {
                } else if i == pos && j > pos {
                    assert(player_le(p@, vout[pos as int]));
                    assert(player_le(vout[pos as int], vout[j - 1]) || j - 1 == pos);
                } else if i < pos && j > pos {
                } else if i > pos {
                }
            }
        }
    }
    out
}

} // verus!
