use vstd::prelude::*;

verus! {

/// One value slot of a raw game event: exactly one variant is populated, as
/// the schema's tagged field encoding demands. A float value is kept as the
/// raw bits of its 32-bit encoding.
#[derive(Clone, Debug)]
pub enum KeyVal {
    VString(String),
    VFloat(u32),
    VLong(i32),
    VShort(i32),
    VByte(i32),
    VBool(bool),
    VUint64(u64),
    VWString(Vec<u8>),
    VNone,
}

/// A decoded "create string table" command: declares a named table, its
/// capacity, its per-entry user-data shape, and the first batch of entries as
/// an undecoded bitstream. Fields a decoder may leave unset are options.
#[derive(Clone, Debug)]
pub struct CreateStringTableMsg {
    pub name: Option<String>,
    pub max_entries: Option<i32>,
    pub num_entries: Option<i32>,
    pub user_data_fixed_size: Option<bool>,
    pub user_data_size_bits: Option<i32>,
    pub flags: Option<i32>,
    pub string_data: Option<Vec<u8>>,
}

/// A decoded "update string table" command: a batch of changed entries for an
/// already created table.
#[derive(Clone, Debug)]
pub struct UpdateStringTableMsg {
    pub table_id: Option<i32>,
    pub num_changed_entries: Option<i32>,
    pub string_data: Option<Vec<u8>>,
}

/// A decoded user message: a sub-type tag and its undecoded payload.
#[derive(Clone, Debug)]
pub struct UserMessageMsg {
    pub msg_type: Option<i32>,
    pub msg_data: Option<Vec<u8>>,
}

/// A decoded raw game event: a numeric id or a literal name, and the ordered
/// field values.
#[derive(Clone, Debug)]
pub struct GameEventMsg {
    pub eventid: Option<i32>,
    pub event_name: Option<String>,
    pub keys: Vec<KeyVal>,
}

/// One schema entry of a "game event list" command: an event id, its name,
/// and the names of its field slots in order (a slot may carry no name).
#[derive(Clone, Debug)]
pub struct EventDescriptorMsg {
    pub eventid: Option<i32>,
    pub name: Option<String>,
    pub keys: Vec<Option<String>>,
}

/// A decoded "game event list" command: the whole event schema.
#[derive(Clone, Debug)]
pub struct GameEventListMsg {
    pub descriptors: Vec<EventDescriptorMsg>,
}

} // verus!
