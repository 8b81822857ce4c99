//! The three record types of the pipeline, and the rules that derive a
//! documentation URL from a device's name and its vendor's name.

use crate::text::{replace_hyphens, strip_whitespace, whitespace_char};
use vstd::prelude::*;

verus! {

/// One device as it appears in the scraped vendor-grouped document.
/// `vendor` and `name` are the raw text labels; `url` is fully sanitized.
#[derive(Debug)]
pub struct DeveloperDevice {
    pub vendor: String,
    pub name: String,
    pub url: String,
}

/// One device as the remote catalog API reports it.
pub struct SolarDevice {
    pub id: String,
    pub name: String,
}

/// One output row: a developer device's URL, joined with the product URL of
/// the equally named catalog device when one exists.
pub struct MappedDevice {
    pub developer_url: String,
    pub solar_url: Option<String>,
}

/// The product page URL for a catalog device with the given id.
pub open spec fn solar_url_of(id: Seq<char>) -> Seq<char> {
    "/devices/"@ + id + "/"@
}

impl SolarDevice {
    /// The device's product page URL, computed from its id.
    pub fn url(&self) -> (r: String)
        ensures
            r@ == solar_url_of(self.id@),
    {
        let mut out = String::new();
        out.append("/devices/");
        out.append(self.id.as_str());
        out.append("/");
        out
    }
}

/// The documentation page URL built from an already-sanitized device name and
/// vendor name.
pub open spec fn device_url_of(name: Seq<char>, vendor: Seq<char>) -> Seq<char> {
    "/embedded/cmsis/cmsis-packs/devices/"@ + vendor + "/"@ + name
}

/// Formats the documentation page URL from a sanitized device name and a
/// sanitized vendor name.
pub fn _build_device_url(name: String, vendor: String) -> (r: String)
    ensures
        r@ == device_url_of(name@, vendor@),
{
    let mut out = String::new();
    out.append("/embedded/cmsis/cmsis-packs/devices/");
    out.append(vendor.as_str());
    out.append("/");
    out.append(name.as_str());
    proof {
        assert(out@ =~= device_url_of(name@, vendor@));
    }
    out
}

/// Sanitization is idempotent on already-sanitized input: a hyphen-free
/// device name and a whitespace-free vendor name pass through the
/// sanitization rules unchanged, so the URL built from the sanitized pair
/// equals the URL built from the raw pair.
pub proof fn lemma_sanitisation_idempotent(name: Seq<char>, vendor: Seq<char>)
    requires
        forall|i: int| 0 <= i < name.len() ==> name[i] != '-',
        forall|i: int| 0 <= i < vendor.len() ==> !whitespace_char(vendor[i]),
    ensures
        replace_hyphens(name) == name,
        strip_whitespace(vendor) == vendor,
        device_url_of(replace_hyphens(name), strip_whitespace(vendor)) == device_url_of(
            name,
            vendor,
        ),
{
    crate::text::lemma_replace_hyphens_sanitised(name);
    crate::text::lemma_strip_whitespace_sanitised(vendor);
}

} // verus!
