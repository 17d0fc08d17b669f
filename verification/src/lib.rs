//! Certifies that firmware built on a device framework declares the hazards
//! that each device action carries.
//!
//! The contracts of the device types are read from the framework's own
//! source; the firmware is then scanned for device instances, and what each
//! instance declares is held against the contract of its type.

pub mod concurrent;
pub mod device;
pub mod error;
pub mod firmware;
pub mod hazards;
pub mod paths;
pub mod pattern;
pub mod syntax;
pub mod text;

use crate::concurrent::run;
use crate::device::{contracts_of, lemma_collected_contracts, DeviceFile, DeviceProducer};
use crate::error::Error;
use crate::firmware::{
    lemma_collected_manifest, manifest_of, manifest_views, Analyzer, FileManifest,
    FileManifestView, FirmwareFile,
};
use vstd::prelude::*;

verus! {

/// The number of workers on a machine that runs `available` threads at once:
/// one less than that, and at least one.
pub fn worker_count(available: usize) -> (n_threads: usize)
    ensures
        n_threads >= 1,
        n_threads == if available >= 2 {
            available - 1
        } else {
            1
        },
{
    if available >= 2 {
        available - 1
    } else {
        1
    }
}

/// Every file of the list has a syntax tree that fits its source.
pub open spec fn device_files_wf(files: Seq<DeviceFile>) -> bool {
    forall|i: int| 0 <= i < files.len() ==> (#[trigger] files[i]).ast.wf()
}

/// Every file of the list has a syntax tree that fits its source.
pub open spec fn firmware_files_wf(files: Seq<FirmwareFile>) -> bool {
    forall|i: int| 0 <= i < files.len() ==> (#[trigger] files[i]).ast.wf()
}

/// The compliance manifest of the firmware files against the contracts that
/// the device files declare.
pub open spec fn compliance_manifest(
    device_files: Seq<DeviceFile>,
    firmware_files: Seq<FirmwareFile>,
) -> Seq<FileManifestView> {
    manifest_of(firmware_files, contracts_of(device_files))
}

/// Extracts the contract of every device type, then scans every firmware
/// file against all of them. The first pass is complete before the second
/// begins. The manifest holds one report for each firmware file that
/// instantiates a device, and does not depend on the number of workers.
pub fn hazard_analyzer(
    device_files: &Vec<DeviceFile>,
    firmware_files: &Vec<FirmwareFile>,
    n_threads: usize,
) -> (manifest: Result<Vec<FileManifest>, Error>)
    requires
        n_threads >= 1,
        device_files_wf(device_files@),
        firmware_files_wf(firmware_files@),
    ensures
        manifest is Ok,
        manifest_views(manifest.unwrap()@) == compliance_manifest(
            device_files@,
            firmware_files@,
        ),
{
    let producer = DeviceProducer::new();
    let ascot_devices = match run(&producer, device_files, n_threads) {
        Ok(ascot_devices) => ascot_devices,
        Err(error) => {
            return Err(error);
        },
    };
    proof {
        lemma_collected_contracts(&producer, device_files@, ascot_devices@);
    }
    let analyzer = Analyzer::new(&ascot_devices);
    let manifest = match run(&analyzer, firmware_files, n_threads) {
        Ok(manifest) => manifest,
        Err(error) => {
            return Err(error);
        },
    };
    proof {
        lemma_collected_manifest(&analyzer, firmware_files@, manifest@);
    }
    Ok(manifest)
}

/// Two runs over the same files give the same manifest: each is the
/// compliance manifest of the files, whatever the number of workers was.
pub proof fn lemma_rerun_gives_same_manifest(
    device_files: Seq<DeviceFile>,
    firmware_files: Seq<FirmwareFile>,
    first: Seq<FileManifest>,
    second: Seq<FileManifest>,
)
    requires
        manifest_views(first) == compliance_manifest(device_files, firmware_files),
        manifest_views(second) == compliance_manifest(device_files, firmware_files),
    ensures
        manifest_views(first) == manifest_views(second),
        manifest_views(first).to_multiset() == manifest_views(second).to_multiset(),
{
}

} // verus!
