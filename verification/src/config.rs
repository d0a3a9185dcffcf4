//! What the monitor watches and whom it tells.
use vstd::prelude::*;

verus! {

/// A room that is watched.
#[derive(Clone, Debug, PartialEq, Eq)]
pub struct LiveRoom {
    pub room_id: u64,
    pub name: String,
}

/// The settings of the monitor.
#[derive(Clone, Debug, PartialEq, Eq)]
pub struct LiveMonitorConfig {
    pub admin: u64,
    pub rooms: Vec<LiveRoom>,
    pub push_groups: Vec<u64>,
    /// Whether the beginning of a stream is announced; by default it is.
    pub push_on_start: bool,
    /// Whether the end of a stream is announced; by default it is not.
    pub push_on_end: bool,
    /// Where reports are sent to be drawn, if anywhere.
    pub report_api_url: Option<String>,
    /// Whether reports are sent at all; by default they are not.
    pub report_push_enabled: bool,
}

/// What a switch is set to that is on by default.
pub fn default_true() -> (r: bool)
    ensures
        r,
{
    true
}

/// What a switch is set to that is off by default.
pub fn default_false() -> (r: bool)
    ensures
        !r,
{
    false
}

impl LiveMonitorConfig {
    /// The settings, once they are there.
    pub fn get<'a>(slot: Option<&'a LiveMonitorConfig>) -> (r: &'a LiveMonitorConfig)
        requires
            slot is Some,
        ensures
            Some(r) == slot,
    {
        slot.unwrap()
    }

    pub fn admin(&self) -> (r: u64)
        ensures
            r == self.admin,
    {
        self.admin
    }

    pub fn push_groups(&self) -> (r: &[u64])
        ensures
            r@ == self.push_groups@,
    {
        self.push_groups.as_slice()
    }

    pub fn rooms(&self) -> (r: &[LiveRoom])
        ensures
            r@ == self.rooms@,
    {
        self.rooms.as_slice()
    }

    /// The address to which reports are sent, where sending is on and there
    /// is one.
    pub fn report_endpoint(&self) -> (r: Option<&String>)
        ensures
            r is Some <==> self.report_push_enabled && self.report_api_url is Some,
            r matches Some(url) ==> Some(*url) == self.report_api_url,
    {
        if self.report_push_enabled {
            self.report_api_url.as_ref()
        } else {
            None
        }
    }
}

impl Default for LiveMonitorConfig {
    /// Settings to begin with: one room and one group, to be replaced.
    fn default() -> (r: LiveMonitorConfig)
        ensures
            r.admin == 123456,
            r.rooms@.len() == 1,
            r.rooms@[0].room_id == 123456,
            r.rooms@[0].name@ == "土豆"@,
            r.push_groups@ == seq![123456789u64],
            r.push_on_start,
            !r.push_on_end,
            r.report_api_url is None,
            !r.report_push_enabled,
    {
        let mut rooms: Vec<LiveRoom> = Vec::new();
        rooms.push(LiveRoom { room_id: 123456, name: "土豆".to_owned() });
        let mut push_groups: Vec<u64> = Vec::new();
        push_groups.push(123456789);
        LiveMonitorConfig {
            admin: 123456,
            rooms,
            push_groups,
            push_on_start: default_true(),
            push_on_end: default_false(),
            report_api_url: None,
            report_push_enabled: default_false(),
        }
    }
}

} // verus!
