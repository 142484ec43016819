//! The client value: a destination address, an owned tag, and the delivery
//! configuration, shared read-only across posts.

use vstd::prelude::*;
use crate::event_time::TimestampValue;
use crate::record::{Record, Value};
use crate::retry_conf::RetryConf;

verus! {

/// The default configuration a bare client starts with.
pub open spec fn default_conf() -> RetryConf {
    RetryConf {
        max_attempts: 13,
        multiplier_num: 2,
        multiplier_den: 1,
        base_delay: 500,
        buffer_path: None,
    }
}

/// A client for one collector: the address it delivers to, the routing tag
/// it stamps on every record, and its retry configuration. Construction does
/// no I/O; the client owns copies of both strings.
#[derive(Debug, Clone, PartialEq)]
pub struct Fluent {
    pub addr: String,
    pub tag: String,
    pub conf: RetryConf,
}

impl Fluent {
    /// A client with the default retry configuration.
    pub fn new(addr: String, tag: String) -> (f: Fluent)
        ensures
            f.addr == addr,
            f.tag == tag,
            f.conf == default_conf(),
            f.conf.wf(),
    {
        Fluent { addr, tag, conf: RetryConf::new() }
    }

    /// A client with the given retry configuration.
    pub fn new_with_conf(addr: String, tag: String, conf: RetryConf) -> (f: Fluent)
        ensures
            f.addr == addr,
            f.tag == tag,
            f.conf == conf,
    {
        Fluent { addr, tag, conf }
    }

    /// The destination address.
    pub fn get_addr(&self) -> (a: &String)
        ensures
            *a == self.addr,
    {
        &self.addr
    }

    /// The routing tag.
    pub fn get_tag(&self) -> (t: &String)
        ensures
            *t == self.tag,
    {
        &self.tag
    }

    /// The retry configuration.
    pub fn get_conf(&self) -> (c: &RetryConf)
        ensures
            *c == self.conf,
    {
        &self.conf
    }

    /// Stamp the client's tag on a timestamped payload: the record shape one
    /// post delivers.
    pub fn make_record(&self, time: TimestampValue, data: Value) -> (r: Record)
        ensures
            r.tag == self.tag,
            r.time == time,
            r.data == data,
    {
        Record::new(self.tag.clone(), time, data)
    }
}

} // verus!
