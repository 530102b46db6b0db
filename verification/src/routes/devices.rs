//! The device list the server offers.

use vstd::prelude::*;

use crate::config::{Config, Device};
use crate::strset::views;

verus! {

pub open spec fn device_names(devices: Seq<Device>) -> Seq<Seq<char>> {
    devices.map_values(|d: Device| d.name@)
}

/// The names of the configured devices, in order.
pub fn get_devices(config: &Config) -> (names: Vec<String>)
    ensures
        views(names@) == device_names(config.devices@),
{
    let mut names: Vec<String> = Vec::new();
    let mut i: usize = 0;
    while i < config.devices.len()
        invariant
            0 <= i <= config.devices.len(),
            views(names@) == device_names(config.devices@).take(i as int),
        decreases config.devices.len() - i,
    {
        let ghost before = views(names@);
        let n = config.devices[i].name.clone();
        names.push(n);
        assert(views(names@) =~= before.push(n@));
        assert(views(names@) =~= device_names(config.devices@).take(i + 1));
        i = i + 1;
    }
    assert(device_names(config.devices@).take(i as int) =~= device_names(config.devices@));
    names
}

} // verus!
