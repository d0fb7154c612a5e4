//! Verified exact core of a passive-radar signal chain: fixed-point CIC
//! decimation, union-find peak merging, track lifecycle bookkeeping,
//! duplicate-track resolution, operator controls and console commands, and
//! the other exact (non floating-point) decisions of the pipeline.
pub mod assoc;
pub mod callsign;
pub mod cic;
pub mod console;
pub mod controls;
pub mod decimate;
pub mod declip;
pub mod dedup;
pub mod http;
pub mod jem;
pub mod labels;
pub mod morse;
pub mod padic;
pub mod playback;
pub mod remote;
pub mod ring;
pub mod script;
pub mod spectrum;
pub mod tbd;
pub mod text;
pub mod track;
pub mod unionfind;
pub mod wscmd;
pub mod wsjson;
