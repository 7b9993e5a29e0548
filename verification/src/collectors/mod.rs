//! The collectors, one per subsystem.
//!
//! Each reads through [`crate::sysfs::SysfsReader`] alone. A file that is
//! missing or may not be read leaves its figure empty; it is no error.

pub mod any;
pub mod clean;
pub mod connections;
pub mod counters;
pub mod cpu;
pub mod disk;
pub mod figures;
pub mod gpu;
pub mod memory;
pub mod messages;
pub mod net;
pub mod peers;
pub mod sensors;
pub mod tables;
pub mod thermal;

use vstd::prelude::*;

use crate::config::names;

verus! {

/// The names of all collectors, in the order in which they run.
pub open spec fn all_collectors() -> Seq<Seq<char>> {
    seq![
        cpu::NAME@,
        memory::NAME@,
        thermal::NAME@,
        disk::NAME@,
        net::NAME@,
        gpu::NAME@,
        connections::NAME@,
    ]
}

pub fn known_collectors() -> (r: Vec<&'static str>)
    ensures
        names(r@) == all_collectors(),
{
    let r: Vec<&'static str> = vec![
        cpu::NAME,
        memory::NAME,
        thermal::NAME,
        disk::NAME,
        net::NAME,
        gpu::NAME,
        connections::NAME,
    ];
    assert(names(r@) == all_collectors());
    r
}

} // verus!
