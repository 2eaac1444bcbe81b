//! Metadata for an OS installer, built from a directory of OS image archives: each
//! archive's display name, package, partition layout and rootfs size.
pub mod archive;
pub mod metadata;
pub mod naming;
pub mod size;

pub use archive::{find_entry_size, open_archive, same_text, Archive, ArchiveError};
pub use metadata::{
    add_archive, display_name, efi_partition, insert_sorted, is_zip_name, os_entry,
    root_partition, strip_zip_suffix, text_less, InstallerData, OsEntry, Partition, Settings,
};
pub use naming::{compose_display_name, format_name};
pub use size::{decimal_string, format_gigabytes, format_megabytes, push_decimal};
