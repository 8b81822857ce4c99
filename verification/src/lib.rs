//! Reconciles two independently sourced device catalogs — one scraped from a
//! vendor-grouped HTML listing, one fetched from a GraphQL-style API — into a
//! single table that links each device's documentation page to its product
//! page, when a correspondence exists.

pub mod catalog;
pub mod device;
pub mod reconcile;
pub mod report;
pub mod scrape;
pub mod text;

pub use device::{DeveloperDevice, MappedDevice, SolarDevice};
pub use reconcile::map_devices;
pub use scrape::{scrape_developer_devices, ScrapeError, VendorGroup};
pub use text::{_sanitise_device_name, _sanitise_vendor_name};

