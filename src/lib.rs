//! Finds a game's installation directory and installs, updates and removes a
//! content package in it.
//!
//! - [`discovery`]: the required-file signature of a valid directory, the
//!   exclusion-aware scan of a directory snapshot, and the ordered search
//!   over registry, well-known locations and scan results.
//! - [`release`]: turning feed releases into installable versions, and
//!   deciding whether an update is on offer.
//! - [`install`]: the plans of file operations for install, update and
//!   uninstall, and a model of what running them does to the target.
//! - [`config`]: default settings and the whole-directory backup location.
//! - [`text`]: character-level helpers on names and release text.
//!
//! Reading the file system, the network and archives is left to the caller,
//! which hands the library snapshots and carries out its plans.
pub mod text;
pub mod release;
pub mod discovery;
pub mod install;
pub mod config;

use vstd::prelude::*;

verus! {

/// `done` out of `total`, scaled into the band from `lo` to `lo + span` and
/// rounded down.
pub fn scaled_percent(done: u64, total: u64, lo: u64, span: u64) -> (r: u64)
    requires
        total > 0,
        done <= total,
        lo + span <= 100,
    ensures
        r == lo + (done as int * span as int) / total as int,
{
    let d = done as u128;
    let t = total as u128;
    let sp = span as u128;
    proof {
        assert(d * sp <= t * 100) by (nonlinear_arith)
            requires d <= t, sp <= 100;
    }
    let p = (d * sp) / t;
    proof {
        assert(p <= sp) by (nonlinear_arith)
            requires p as int == (d as int * sp as int) / (t as int), d <= t, t > 0;
    }
    lo + p as u64
}

} // verus!
