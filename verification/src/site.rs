//! The downstream record shape for one monitoring site, as carried by the
//! inventory tables of the sensor datasets this parser ingests. Every field
//! keeps the cell text of its column unchanged.

use vstd::prelude::*;

verus! {

/// One monitoring site, read off a parsed inventory table row.
pub struct Site {
    pub zone: String,
    pub country: String,
    pub sitename: String,
    pub utc_offset: String,
    pub pm25_scale: String,
    pub pm25_offset: String,
    pub serial_number: String,
    pub plocation: String,
    pub latitude: String,
    pub longitude: String,
    pub is_indoors: String,
    pub measurements: String,
    pub nrecords: String,
    pub date_start: String,
    pub date_end: String,
    pub time: String,
}

} // verus!
