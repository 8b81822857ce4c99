//! The reconciler: joins developer devices against the solar catalog by exact
//! name equality, first match in catalog order winning, and emits one output
//! row per developer device in input order.

use crate::device::{solar_url_of, DeveloperDevice, MappedDevice, SolarDevice};
use vstd::prelude::*;

verus! {

/// The first catalog device whose name equals `name`, in catalog order, if
/// any. When the catalog holds duplicate names, the earliest entry wins.
pub open spec fn first_match(solar: Seq<SolarDevice>, name: Seq<char>) -> Option<SolarDevice>
    decreases solar.len(),
{
    if solar.len() == 0 {
        None
    } else if solar.first().name@ == name {
        Some(solar.first())
    } else {
        first_match(solar.drop_first(), name)
    }
}

/// What one output row owes to the developer device it stands for: it carries
/// the device's documentation URL, and the product URL of the first
/// equally-named catalog device, or nothing when the catalog has none.
pub open spec fn row_matches(
    solar: Seq<SolarDevice>,
    dev: DeveloperDevice,
    row: MappedDevice,
) -> bool {
    &&& row.developer_url@ == dev.url@
    &&& match first_match(solar, dev.name@) {
        Some(s) => row.solar_url matches Some(u) && u@ == solar_url_of(s.id@),
        None => row.solar_url is None,
    }
}

/// Scans the catalog in order and returns the product URL of the first
/// device named `name`, if any.
fn find_solar_url(solar_devices: &Vec<SolarDevice>, name: &String) -> (r: Option<String>)
    ensures
        match first_match(solar_devices@, name@) {
            Some(s) => r matches Some(u) && u@ == solar_url_of(s.id@),
            None => r is None,
        },
{
    proof {
        assert(solar_devices@.skip(0) =~= solar_devices@);
    }
    let mut k: usize = 0;
    while k < solar_devices.len()
        invariant
            k <= solar_devices@.len(),
            first_match(solar_devices@, name@) == first_match(
                solar_devices@.skip(k as int),
                name@,
            ),
        decreases solar_devices@.len() - k,
    {
        proof {
            assert(solar_devices@.skip(k as int).first() == solar_devices@[k as int]);
            assert(solar_devices@.skip(k as int).drop_first() =~= solar_devices@.skip(k + 1));
        }
        if solar_devices[k].name == *name {
            return Some(solar_devices[k].url());
        }
        k = k + 1;
    }
    None
}

/// Joins each developer device, in input order, with the first equally-named
/// catalog device. Every developer device yields exactly one row; catalog
/// devices without a counterpart are dropped.
pub fn map_devices(solar_devices: Vec<SolarDevice>, developer_devices: Vec<DeveloperDevice>) -> (r:
    Vec<MappedDevice>)
    ensures
        r@.len() == developer_devices@.len(),
        forall|i: int|
            0 <= i < r@.len() ==> row_matches(
                solar_devices@,
                developer_devices@[i],
                #[trigger] r@[i],
            ),
{
    let mut mapped: Vec<MappedDevice> = Vec::new();
    let mut di: usize = 0;
    while di < developer_devices.len()
        invariant
            di <= developer_devices@.len(),
            mapped@.len() == di,
            forall|i: int|
                0 <= i < di ==> row_matches(
                    solar_devices@,
                    developer_devices@[i],
                    #[trigger] mapped@[i],
                ),
        decreases developer_devices@.len() - di,
    {
        let dev = &developer_devices[di];
        let solar_url = find_solar_url(&solar_devices, &dev.name);
        mapped.push(MappedDevice { developer_url: dev.url.clone(), solar_url });
        di = di + 1;
    }
    mapped
}

/// No catalog device is named `name` exactly when the scan finds nothing.
pub proof fn lemma_first_match_none(solar: Seq<SolarDevice>, name: Seq<char>)
    ensures
        first_match(solar, name) is None <==> (forall|j: int|
            0 <= j < solar.len() ==> (#[trigger] solar[j].name@) != name),
    decreases solar.len(),
{
    if solar.len() > 0 {
        lemma_first_match_none(solar.drop_first(), name);
        let rest = solar.drop_first();
        assert(solar.first() == solar[0]);
        if first_match(solar, name) is None {
            assert forall|j: int| 0 <= j < solar.len() implies (#[trigger] solar[j].name@)
                != name by {
                if j > 0 {
                    assert(rest[j - 1] == solar[j]);
                }
            }
        }
        if forall|j: int| 0 <= j < solar.len() ==> (#[trigger] solar[j].name@) != name {
            assert forall|j: int| 0 <= j < rest.len() implies (#[trigger] rest[j].name@)
                != name by {
                assert(rest[j] == solar[j + 1]);
            }
        }
    }
}

/// When exactly one catalog device carries the name, the scan finds that one.
pub proof fn lemma_first_match_unique(solar: Seq<SolarDevice>, name: Seq<char>, j: int)
    requires
        0 <= j < solar.len(),
        solar[j].name@ == name,
        forall|k: int| 0 <= k < solar.len() && k != j ==> (#[trigger] solar[k].name@) != name,
    ensures
        first_match(solar, name) == Some(solar[j]),
    decreases solar.len(),
{
    if j == 0 {
        assert(solar.first() == solar[0]);
    } else {
        assert(solar.first() == solar[0]);
        assert(forall|k: int|
            0 <= k < solar.drop_first().len() ==> #[trigger] solar.drop_first()[k] == solar[k + 1]);
        lemma_first_match_unique(solar.drop_first(), name, j - 1);
    }
}

/// A developer device whose name has no equal-name counterpart in the
/// catalog gets a row with an absent product URL.
pub proof fn lemma_row_unmatched(solar: Seq<SolarDevice>, dev: DeveloperDevice, row: MappedDevice)
    requires
        row_matches(solar, dev, row),
        forall|j: int| 0 <= j < solar.len() ==> (#[trigger] solar[j].name@) != dev.name@,
    ensures
        row.solar_url is None,
{
    lemma_first_match_none(solar, dev.name@);
}

/// A developer device whose name equals exactly one catalog device's name
/// gets a row linking to that device's product URL.
pub proof fn lemma_row_unique_match(
    solar: Seq<SolarDevice>,
    dev: DeveloperDevice,
    row: MappedDevice,
    j: int,
)
    requires
        row_matches(solar, dev, row),
        0 <= j < solar.len(),
        solar[j].name@ == dev.name@,
        forall|k: int| 0 <= k < solar.len() && k != j ==> (#[trigger] solar[k].name@) != dev.name@,
    ensures
        row.solar_url matches Some(u) && u@ == solar_url_of(solar[j].id@),
{
    lemma_first_match_unique(solar, dev.name@, j);
}

} // verus!
