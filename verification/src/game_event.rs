use vstd::prelude::*;
use crate::assoc::AssocMap;
use crate::error::DemoError;
use crate::messages::{EventDescriptorMsg, GameEventListMsg, GameEventMsg, KeyVal};

verus! {

/// A typed gameplay event, extracted from a raw event by its schema
/// descriptor. Events this pipeline deliberately drops collapse to
/// `Filtered`; recognized-but-unmodeled names pass through as `Other`.
#[derive(Clone, Debug)]
pub enum Event {
    Filtered,
    BeginNewMatch,
    RoundStart,
    RoundOfficiallyEnded,
    RoundEnd(bool),
    ItemEquip(i32, String),
    PlayerSpawn(i32, bool),
    PlayerDeath { victim: i32, killer: Option<i32>, assist: Option<i32>, flash_assist: bool, weapon: String },
    Other(String),
}

/// The mathematical shape of a typed event.
pub enum EventV {
    Filtered,
    BeginNewMatch,
    RoundStart,
    RoundOfficiallyEnded,
    RoundEnd(bool),
    ItemEquip(int, Seq<char>),
    PlayerSpawn(int, bool),
    PlayerDeath { victim: int, killer: Option<int>, assist: Option<int>, flash_assist: bool, weapon: Seq<char> },
    Other(Seq<char>),
}

impl View for Event {
    type V = EventV;

    open spec fn view(&self) -> EventV {
        match self {
            Event::Filtered => EventV::Filtered,
            Event::BeginNewMatch => EventV::BeginNewMatch,
            Event::RoundStart => EventV::RoundStart,
            Event::RoundOfficiallyEnded => EventV::RoundOfficiallyEnded,
            Event::RoundEnd(w) => EventV::RoundEnd(*w),
            Event::ItemEquip(u, s) => EventV::ItemEquip(*u as int, s@),
            Event::PlayerSpawn(u, t) => EventV::PlayerSpawn(*u as int, *t),
            Event::PlayerDeath { victim, killer, assist, flash_assist, weapon } => {
                EventV::PlayerDeath {
                    victim: *victim as int,
                    killer: match killer {
                        Some(k) => Some(*k as int),
                        None => None,
                    },
                    assist: match assist {
                        Some(a) => Some(*a as int),
                        None => None,
                    },
                    flash_assist: *flash_assist,
                    weapon: weapon@,
                }
            },
            Event::Other(n) => EventV::Other(n@),
        }
    }
}

/// One schema entry: the event's name and, slot by slot, the name each field
/// position carries (a slot may carry none).
#[derive(Clone, Debug)]
pub struct EventDescriptor {
    pub name: String,
    pub keys: Vec<Option<String>>,
}

/// The mathematical shape of a schema entry.
pub struct DescriptorV {
    pub name: Seq<char>,
    pub keys: Seq<Option<Seq<char>>>,
}

/// Slot names with their text abstracted.
pub open spec fn names_deep(s: Seq<Option<String>>) -> Seq<Option<Seq<char>>> {
    Seq::new(
        s.len(),
        |i: int|
            match s[i] {
                Some(n) => Some(n@),
                None => None,
            },
    )
}

impl View for EventDescriptor {
    type V = DescriptorV;

    open spec fn view(&self) -> DescriptorV {
        DescriptorV { name: self.name@, keys: names_deep(self.keys@) }
    }
}

/// The value slot that the last field named `want` holds: field names bind by
/// position, and a later binding of the same name wins.
pub open spec fn last_named(keys: Seq<KeyVal>, names: Seq<Option<Seq<char>>>, want: Seq<char>) -> Option<
    KeyVal,
>
    decreases keys.len(),
{
    if keys.len() == 0 {
        None
    } else {
        let j = keys.len() - 1;
        if j < names.len() && (names[j as int] matches Some(n) && n == want) {
            Some(keys[j as int])
        } else {
            last_named(keys.drop_last(), names, want)
        }
    }
}

/// The 16-bit integer a slot holds, if that is what it holds.
pub open spec fn short_of(k: Option<KeyVal>) -> Option<int> {
    match k {
        Some(KeyVal::VShort(v)) => Some(v as int),
        _ => None,
    }
}

/// The byte-sized integer a slot holds, if that is what it holds.
pub open spec fn byte_of(k: Option<KeyVal>) -> Option<int> {
    match k {
        Some(KeyVal::VByte(v)) => Some(v as int),
        _ => None,
    }
}

/// The boolean a slot holds, if that is what it holds.
pub open spec fn bool_of(k: Option<KeyVal>) -> Option<bool> {
    match k {
        Some(KeyVal::VBool(v)) => Some(v),
        _ => None,
    }
}

/// The text a slot holds, if that is what it holds.
pub open spec fn string_of(k: Option<KeyVal>) -> Option<Seq<char>> {
    match k {
        Some(KeyVal::VString(s)) => Some(s@),
        _ => None,
    }
}

/// A positive id, or nothing: ids of zero (or less) are normalized to "none".
pub open spec fn filter_pos(o: Option<int>) -> Option<int> {
    match o {
        Some(v) => if v > 0 {
            Some(v)
        } else {
            None
        },
        None => None,
    }
}

/// Whether the extractor drops events of this name outright.
pub open spec fn is_ignored(name: Seq<char>) -> bool {
    ||| name == "player_footstep"@
    ||| name == "weapon_fire"@
    ||| name == "weapon_reload"@
    ||| name == "player_hurt"@
    ||| name == "item_pickup"@
}

/// Extract a typed event from a raw event whose descriptor is known.
pub open spec fn spec_parse_known(d: DescriptorV, id: i32, keys: Seq<KeyVal>) -> Result<
    EventV,
    DemoError,
> {
    let name = d.name;
    if is_ignored(name) {
        Ok(EventV::Filtered)
    } else if name == "begin_new_match"@ {
        Ok(EventV::BeginNewMatch)
    } else if name == "round_announce_match_start"@ || name == "round_start"@ {
        Ok(EventV::RoundStart)
    } else if name == "round_officially_ended"@ {
        Ok(EventV::RoundOfficiallyEnded)
    } else if name == "round_end"@ {
        match byte_of(last_named(keys, d.keys, "winner"@)) {
            Some(t) => if t == 2 || t == 3 {
                Ok(EventV::RoundEnd(t == 2))
            } else {
                Err(DemoError::SchemaMismatch { event_id: id })
            },
            None => Err(DemoError::SchemaMismatch { event_id: id }),
        }
    } else if name == "item_equip"@ {
        match (
            short_of(last_named(keys, d.keys, "userid"@)),
            string_of(last_named(keys, d.keys, "item"@)),
        ) {
            (Some(u), Some(s)) => Ok(EventV::ItemEquip(u, s)),
            _ => Err(DemoError::SchemaMismatch { event_id: id }),
        }
    } else if name == "player_spawn"@ {
        match (
            short_of(last_named(keys, d.keys, "userid"@)),
            short_of(last_named(keys, d.keys, "teamnum"@)),
        ) {
            (Some(u), Some(t)) => if t == 2 || t == 3 {
                Ok(EventV::PlayerSpawn(u, t == 2))
            } else {
                Ok(EventV::Filtered)
            },
            _ => Err(DemoError::SchemaMismatch { event_id: id }),
        }
    } else if name == "player_death"@ {
        match short_of(last_named(keys, d.keys, "userid"@)) {
            Some(victim) => Ok(
                EventV::PlayerDeath {
                    victim,
                    killer: filter_pos(short_of(last_named(keys, d.keys, "attacker"@))),
                    assist: filter_pos(short_of(last_named(keys, d.keys, "assister"@))),
                    flash_assist: match bool_of(last_named(keys, d.keys, "assistedflash"@)) {
                        Some(b) => b,
                        None => false,
                    },
                    weapon: match string_of(last_named(keys, d.keys, "weapon"@)) {
                        Some(s) => s,
                        None => Seq::empty(),
                    },
                },
            ),
            None => Err(DemoError::SchemaMismatch { event_id: id }),
        }
    } else {
        Ok(EventV::Other(name))
    }
}

/// Extract a typed event: by descriptor when the registry knows the event's
/// id, by the raw event's own literal name when it carries one, and a fatal
/// schema mismatch when neither holds.
pub open spec fn spec_parse_event(reg: Map<i64, DescriptorV>, ev: GameEventMsg) -> Result<
    EventV,
    DemoError,
> {
    match ev.eventid {
        Some(id) => if reg.contains_key(id as i64) {
            spec_parse_known(reg[id as i64], id, ev.keys@)
        } else {
            spec_parse_fallback(ev)
        },
        None => spec_parse_fallback(ev),
    }
}

/// The fallback for an event without a known descriptor.
pub open spec fn spec_parse_fallback(ev: GameEventMsg) -> Result<EventV, DemoError> {
    match ev.event_name {
        Some(n) => Ok(EventV::Other(n@)),
        None => Err(
            DemoError::SchemaMismatch {
                event_id: match ev.eventid {
                    Some(i) => i,
                    None => 0,
                },
            },
        ),
    }
}

/// Find the value of the last field named `want`, as `last_named` says.
fn find_last<'a>(keys: &'a Vec<KeyVal>, names: &Vec<Option<String>>, want: &String) -> (r: Option<
    &'a KeyVal,
>)
    ensures
        match r {
            Some(k) => last_named(keys@, names_deep(names@), want@) == Some(*k),
            None => last_named(keys@, names_deep(names@), want@) is None,
        },
{
    let ghost nd = names_deep(names@);
    let mut i: usize = keys.len();
    proof {
        assert(keys@.take(i as int) =~= keys@);
    }
    loop
        invariant
            i <= keys@.len(),
            last_named(keys@, nd, want@) == last_named(keys@.take(i as int), nd, want@),
            nd == names_deep(names@),
        decreases i,
    {
        if i == 0 {
            return None;
        }
        i = i - 1;
        proof {
            assert(keys@.take(i + 1).drop_last() =~= keys@.take(i as int));
            assert(keys@.take(i + 1).len() == i + 1);
            assert(keys@.take(i + 1)[i as int] == keys@[i as int]);
        }
        if i < names.len() {
            match &names[i] {
                Some(n) => {
                    if *n == *want {
                        return Some(&keys[i]);
                    }
                },
                None => {},
            }
        }
    }
}

/// The registry a schema message builds: event id to descriptor, keeping a
/// descriptor only when it carries both an id and a name; a later descriptor
/// for the same id wins.
pub open spec fn registry_of(descs: Seq<EventDescriptorMsg>) -> Map<i64, DescriptorV>
    decreases descs.len(),
{
    if descs.len() == 0 {
        Map::empty()
    } else {
        let prev = registry_of(descs.drop_last());
        let d = descs.last();
        match (d.eventid, d.name) {
            (Some(id), Some(n)) => prev.insert(
                id as i64,
                DescriptorV { name: n@, keys: names_deep(d.keys@) },
            ),
            _ => prev,
        }
    }
}

/// Build the event registry from a schema message. The new registry replaces
/// any earlier one outright; registries are never merged.
pub fn read_event_names(list: GameEventListMsg) -> (r: AssocMap<EventDescriptor>)
    ensures
        r.wf(),
        r@ == registry_of(list.descriptors@),
{
    let ghost descs = list.descriptors@;
    let mut reg: AssocMap<EventDescriptor> = AssocMap::new();
    let mut i: usize = 0;
    let n = list.descriptors.len();
    let mut rest = list.descriptors;
    proof {
        assert(descs.take(0) =~= Seq::<EventDescriptorMsg>::empty());
    }
    let mut taken: usize = 0;
    while taken < n
        invariant
            taken <= n,
            n == descs.len(),
            rest@ == descs.skip(taken as int),
            reg.wf(),
            reg@ == registry_of(descs.take(taken as int)),
        decreases n - taken,
    {
        let d = rest.remove(0);
        proof {
            assert(rest@ =~= descs.skip(taken + 1));
            assert(descs.take(taken + 1).drop_last() =~= descs.take(taken as int));
            assert(descs.take(taken + 1).last() == descs[taken as int]);
            assert(d == descs[taken as int]);
        }
        match (d.eventid, d.name) {
            (Some(id), Some(name)) => {
                reg.insert(id as i64, EventDescriptor { name, keys: d.keys });
            },
            _ => {},
        }
        taken = taken + 1;
    }
    proof {
        assert(descs.take(n as int) =~= descs);
    }
    reg
}

/// The event registry in force: numeric event id to named, slot-labelled
/// descriptor, built once from a schema message and reused for every raw
/// event that follows.
#[derive(Clone, Debug)]
pub struct EventContext {
    events: AssocMap<EventDescriptor>,
}

impl View for EventContext {
    type V = Map<i64, DescriptorV>;

    closed spec fn view(&self) -> Map<i64, DescriptorV> {
        self.events@
    }
}

impl EventContext {
    /// The registry's keys stay distinct.
    pub closed spec fn wf(&self) -> bool {
        self.events.wf()
    }

    pub fn new(events: AssocMap<EventDescriptor>) -> (r: EventContext)
        requires
            events.wf(),
        ensures
            r.wf(),
            r@ == events@,
    {
        EventContext { events }
    }

    /// Extract a typed event from a raw event, exactly as `spec_parse_event`
    /// says: by descriptor when the registry knows the id, by literal name
    /// otherwise, and a fatal schema mismatch when neither is present.
    pub fn parse_game_event(&self, ev: GameEventMsg) -> (res: Result<Event, DemoError>)
        requires
            self.wf(),
        ensures
            match res {
                Ok(e) => spec_parse_event(self@, ev) == Ok::<EventV, DemoError>(e@),
                Err(er) => spec_parse_event(self@, ev) == Err::<EventV, DemoError>(er),
            },
    {
        match ev.eventid {
            Some(id) => {
                match self.events.get(id as i64) {
                    Some(d) => {
                        return parse_known(d, id, &ev.keys);
                    },
                    None => {},
                }
            },
            None => {},
        }
        match ev.event_name {
            Some(n) => Ok(Event::Other(n)),
            None => Err(
                DemoError::SchemaMismatch {
                    event_id: match ev.eventid {
                        Some(i) => i,
                        None => 0,
                    },
                },
            ),
        }
    }
}

/// Extract a typed event from a raw event whose descriptor is known, exactly
/// as `spec_parse_known` says.
fn parse_known(d: &EventDescriptor, id: i32, keys: &Vec<KeyVal>) -> (res: Result<Event, DemoError>)
    ensures
        match res {
            Ok(e) => spec_parse_known(d@, id, keys@) == Ok::<EventV, DemoError>(e@),
            Err(er) => spec_parse_known(d@, id, keys@) == Err::<EventV, DemoError>(er),
        },
{
    let name = &d.name;
    if *name == String::from_str("player_footstep") || *name == String::from_str("weapon_fire")
        || *name == String::from_str("weapon_reload") || *name == String::from_str("player_hurt")
        || *name == String::from_str("item_pickup") {
        Ok(Event::Filtered)
    } else if *name == String::from_str("begin_new_match") {
        Ok(Event::BeginNewMatch)
    } else if *name == String::from_str("round_announce_match_start") || *name == String::from_str(
        "round_start",
    ) {
        Ok(Event::RoundStart)
    } else if *name == String::from_str("round_officially_ended") {
        Ok(Event::RoundOfficiallyEnded)
    } else if *name == String::from_str("round_end") {
        let winner = match find_last(keys, &d.keys, &String::from_str("winner")) {
            Some(KeyVal::VByte(t)) => Some(*t),
            _ => None,
        };
        match winner {
            Some(t) => if t == 2 || t == 3 {
                Ok(Event::RoundEnd(t == 2))
            } else {
                Err(DemoError::SchemaMismatch { event_id: id })
            },
            None => Err(DemoError::SchemaMismatch { event_id: id }),
        }
    } else if *name == String::from_str("item_equip") {
        let userid = match find_last(keys, &d.keys, &String::from_str("userid")) {
            Some(KeyVal::VShort(v)) => Some(*v),
            _ => None,
        };
        let item = match find_last(keys, &d.keys, &String::from_str("item")) {
            Some(KeyVal::VString(s)) => Some(s.clone()),
            _ => None,
        };
        match (userid, item) {
            (Some(u), Some(s)) => Ok(Event::ItemEquip(u, s)),
            _ => Err(DemoError::SchemaMismatch { event_id: id }),
        }
    } else if *name == String::from_str("player_spawn") {
        let userid = match find_last(keys, &d.keys, &String::from_str("userid")) {
            Some(KeyVal::VShort(v)) => Some(*v),
            _ => None,
        };
        let teamnum = match find_last(keys, &d.keys, &String::from_str("teamnum")) {
            Some(KeyVal::VShort(v)) => Some(*v),
            _ => None,
        };
        match (userid, teamnum) {
            (Some(u), Some(t)) => if t == 2 || t == 3 {
                Ok(Event::PlayerSpawn(u, t == 2))
            } else {
                Ok(Event::Filtered)
            },
            _ => Err(DemoError::SchemaMismatch { event_id: id }),
        }
    } else if *name == String::from_str("player_death") {
        let userid = match find_last(keys, &d.keys, &String::from_str("userid")) {
            Some(KeyVal::VShort(v)) => Some(*v),
            _ => None,
        };
        let attacker = match find_last(keys, &d.keys, &String::from_str("attacker")) {
            Some(KeyVal::VShort(v)) => Some(*v),
            _ => None,
        };
        let assister = match find_last(keys, &d.keys, &String::from_str("assister")) {
            Some(KeyVal::VShort(v)) => Some(*v),
            _ => None,
        };
        let flash = match find_last(keys, &d.keys, &String::from_str("assistedflash")) {
            Some(KeyVal::VBool(b)) => Some(*b),
            _ => None,
        };
        let weapon = match find_last(keys, &d.keys, &String::from_str("weapon")) {
            Some(KeyVal::VString(s)) => Some(s.clone()),
            _ => None,
        };
        match userid {
            Some(victim) => Ok(
                Event::PlayerDeath {
                    victim,
                    killer: match attacker {
                        Some(v) => if v > 0 {
                            Some(v)
                        } else {
                            None
                        },
                        None => None,
                    },
                    assist: match assister {
                        Some(v) => if v > 0 {
                            Some(v)
                        } else {
                            None
                        },
                        None => None,
                    },
                    flash_assist: match flash {
                        Some(b) => b,
                        None => false,
                    },
                    weapon: match weapon {
                        Some(s) => s,
                        None => String::new(),
                    },
                },
            ),
            None => Err(DemoError::SchemaMismatch { event_id: id }),
        }
    } else {
        Ok(Event::Other(d.name.clone()))
    }
}

} // verus!
