use crate::archive::{
    archive_entries, entry_size_of, find_entry_size, readable_entries, readable_through, Archive,
    ArchiveError,
};
use crate::naming::{display_name_of, format_name};
use crate::size::{decimal_of, format_gigabytes, format_megabytes, rounded_gigabytes};
use vstd::prelude::*;
use vstd::string::*;

verus! {

/// One partition that the installer creates for an OS.
#[derive(Debug)]
pub struct Partition {
    pub name: String,
    pub part_type: String,
    pub size: String,
    pub format: Option<String>,
    pub copy_firmware: Option<bool>,
    pub copy_installer_data: Option<bool>,
    pub source: Option<String>,
    pub expand: Option<bool>,
    pub image: Option<String>,
}

/// The metadata of one OS image.
#[derive(Debug)]
pub struct OsEntry {
    pub name: String,
    pub default_os_name: String,
    pub boot_object: String,
    pub next_object: String,
    pub package: String,
    pub icon: Option<String>,
    pub supported_fw: Vec<String>,
    pub partitions: Vec<Partition>,
}

/// The document read by the installer: the OS entries, sorted by name.
#[derive(Debug)]
pub struct InstallerData {
    pub os_list: Vec<OsEntry>,
}

/// What is shared by every entry of one run.
#[derive(Debug)]
pub struct Settings {
    /// The default OS name shown by the installer.
    pub os_name: String,
    /// The size of the EFI partition, in megabytes.
    pub efi_size: u32,
    /// The name of the rootfs image inside each archive.
    pub image_name: String,
    /// The file name of the boot menu icon, if any.
    pub icon: Option<String>,
}

/// The text of an optional string.
pub open spec fn opt_text(o: Option<String>) -> Option<Seq<char>> {
    match o {
        Some(s) => Some(s@),
        None => None,
    }
}

/// Whether `s` ends with ".zip".
pub open spec fn ends_with_zip(s: Seq<char>) -> bool {
    &&& s.len() >= 4
    &&& s[s.len() - 4] == '.'
    &&& s[s.len() - 3] == 'z'
    &&& s[s.len() - 2] == 'i'
    &&& s[s.len() - 1] == 'p'
}

/// Whether a file name has the extension "zip": it ends with ".zip" and has a non-empty
/// stem, so ".zip" alone has no extension.
pub open spec fn is_zip_file_name(s: Seq<char>) -> bool {
    ends_with_zip(s) && s.len() > 4
}

/// The file name without a trailing ".zip".
pub open spec fn stem_of(s: Seq<char>) -> Seq<char> {
    if ends_with_zip(s) {
        s.subrange(0, s.len() - 4)
    } else {
        s
    }
}

/// The name shown for an archive: the display name derived from its stem, or the stem.
pub open spec fn listed_name(file_name: Seq<char>) -> Seq<char> {
    match display_name_of(stem_of(file_name)) {
        Some(d) => d,
        None => stem_of(file_name),
    }
}

/// The partition has the EFI partition's optional fields and none of the Root ones.
pub open spec fn has_efi_fields(p: Partition) -> bool {
    &&& p.format is Some
    &&& p.copy_firmware is Some
    &&& p.copy_installer_data is Some
    &&& p.source is Some
    &&& p.expand is None
    &&& p.image is None
}

/// The partition has the Root partition's optional fields and none of the EFI ones.
pub open spec fn has_root_fields(p: Partition) -> bool {
    &&& p.format is None
    &&& p.copy_firmware is None
    &&& p.copy_installer_data is None
    &&& p.source is None
    &&& p.expand is Some
    &&& p.image is Some
}

/// Two partitions, EFI first with only the EFI fields, Root second with only the Root fields.
pub open spec fn has_standard_layout(e: OsEntry) -> bool {
    &&& e.partitions@.len() == 2
    &&& e.partitions@[0].name@ == "EFI"@
    &&& has_efi_fields(e.partitions@[0])
    &&& e.partitions@[1].name@ == "Root"@
    &&& has_root_fields(e.partitions@[1])
}

/// The EFI partition of the given size in megabytes.
pub open spec fn is_efi_partition(p: Partition, efi_size: u32) -> bool {
    &&& p.name@ == "EFI"@
    &&& p.part_type@ == "EFI"@
    &&& p.size@ == decimal_of(efi_size as nat) + seq!['M', 'B']
    &&& opt_text(p.format) == Some("fat"@)
    &&& p.copy_firmware == Some(true)
    &&& p.copy_installer_data == Some(true)
    &&& opt_text(p.source) == Some("esp"@)
    &&& p.expand is None
    &&& p.image is None
}

/// The Root partition holding the image `image` of `bytes` bytes.
pub open spec fn is_root_partition(p: Partition, bytes: u64, image: Seq<char>) -> bool {
    &&& p.name@ == "Root"@
    &&& p.part_type@ == "Linux"@
    &&& p.size@ == decimal_of(rounded_gigabytes(bytes as nat)) + seq!['G', 'B']
    &&& p.format is None
    &&& p.copy_firmware is None
    &&& p.copy_installer_data is None
    &&& p.source is None
    &&& p.expand == Some(true)
    &&& opt_text(p.image) == Some(image)
}

/// The entry for the archive `file_name` whose rootfs image has `bytes` bytes.
pub open spec fn describes(e: OsEntry, file_name: Seq<char>, s: Settings, bytes: u64) -> bool {
    &&& e.name@ == listed_name(file_name)
    &&& e.default_os_name@ == s.os_name@
    &&& e.boot_object@ == "m1n1.bin"@
    &&& e.next_object@ == "m1n1/boot.bin"@
    &&& e.package@ == file_name
    &&& opt_text(e.icon) == opt_text(s.icon)
    &&& e.supported_fw@.len() == 1
    &&& e.supported_fw@[0]@ == "13.5"@
    &&& e.partitions@.len() == 2
    &&& is_efi_partition(e.partitions@[0], s.efi_size)
    &&& is_root_partition(e.partitions@[1], bytes, s.image_name@)
}

/// Ordinal order of texts from index `i` on: by character code, a proper prefix first.
pub open spec fn text_lt_from(a: Seq<char>, b: Seq<char>, i: int) -> bool
    decreases a.len() - i,
{
    if i >= a.len() {
        i < b.len()
    } else if i >= b.len() {
        false
    } else if (a[i] as u32) != (b[i] as u32) {
        (a[i] as u32) < (b[i] as u32)
    } else {
        text_lt_from(a, b, i + 1)
    }
}

/// Whether `a` comes strictly before `b` in ordinal order.
pub open spec fn text_lt(a: Seq<char>, b: Seq<char>) -> bool {
    text_lt_from(a, b, 0)
}

/// No entry's name comes before the name of an entry in front of it.
pub open spec fn sorted_by_name(s: Seq<OsEntry>) -> bool {
    forall|i: int, j: int|
        0 <= i < j < s.len() ==> !text_lt(#[trigger] s[j].name@, #[trigger] s[i].name@)
}

/// Where an entry named `name` goes in `s`: before the first entry whose name comes
/// after `name`, so after every entry of an equal name.
pub open spec fn insertion_point(s: Seq<OsEntry>, name: Seq<char>, from: int) -> int
    decreases s.len() - from,
{
    if from >= s.len() {
        s.len() as int
    } else if text_lt(name, s[from].name@) {
        from
    } else {
        insertion_point(s, name, from + 1)
    }
}

proof fn lemma_text_lt_asymmetric(a: Seq<char>, b: Seq<char>, i: int)
    requires
        0 <= i,
        text_lt_from(a, b, i),
    ensures
        !text_lt_from(b, a, i),
    decreases a.len() - i,
{
    if i < a.len() && i < b.len() && (a[i] as u32) == (b[i] as u32) {
        lemma_text_lt_asymmetric(a, b, i + 1);
    }
}

/// If `c` comes before `a`, then `c` comes before `b` or `b` comes before `a`.
proof fn lemma_text_lt_split(a: Seq<char>, b: Seq<char>, c: Seq<char>, i: int)
    requires
        0 <= i,
        text_lt_from(c, a, i),
    ensures
        text_lt_from(c, b, i) || text_lt_from(b, a, i),
    decreases a.len() - i,
{
    if i < c.len() && i < a.len() && i < b.len() && (c[i] as u32) == (a[i] as u32)
        && (b[i] as u32) == (c[i] as u32) {
        lemma_text_lt_split(a, b, c, i + 1);
    }
}

proof fn lemma_insertion_point(s: Seq<OsEntry>, name: Seq<char>, from: int)
    requires
        0 <= from <= s.len(),
    ensures
        from <= insertion_point(s, name, from) <= s.len(),
        forall|k: int| from <= k < insertion_point(s, name, from) ==> !text_lt(name, s[k].name@),
        insertion_point(s, name, from) < s.len() ==> text_lt(
            name,
            s[insertion_point(s, name, from)].name@,
        ),
    decreases s.len() - from,
{
    if from < s.len() && !text_lt(name, s[from].name@) {
        lemma_insertion_point(s, name, from + 1);
    }
}

/// Whether `a` comes strictly before `b` in ordinal (code point) order.
pub fn text_less(a: &str, b: &str) -> (r: bool)
    ensures
        r == text_lt(a@, b@),
{
    let na = a.unicode_len();
    let nb = b.unicode_len();
    let mut i: usize = 0;
    while i < na && i < nb
        invariant
            na == a@.len(),
            nb == b@.len(),
            i <= na,
            i <= nb,
            text_lt_from(a@, b@, i as int) == text_lt(a@, b@),
        decreases na - i,
    {
        let ca = a.get_char(i);
        let cb = b.get_char(i);
        if (ca as u32) != (cb as u32) {
            return (ca as u32) < (cb as u32);
        }
        i = i + 1;
    }
    i < nb
}

/// Whether a file name has the extension "zip" (case-sensitive).
pub fn is_zip_name(file_name: &str) -> (r: bool)
    ensures
        r == is_zip_file_name(file_name@),
{
    file_name.unicode_len() > 4 && ends_with_zip_exec(file_name)
}

fn ends_with_zip_exec(s: &str) -> (r: bool)
    ensures
        r == ends_with_zip(s@),
{
    let n = s.unicode_len();
    n >= 4 && s.get_char(n - 4) == '.' && s.get_char(n - 3) == 'z' && s.get_char(n - 2) == 'i'
        && s.get_char(n - 1) == 'p'
}

/// The file name with a trailing ".zip" removed.
pub fn strip_zip_suffix(file_name: &str) -> (r: &str)
    ensures
        r@ == stem_of(file_name@),
{
    if ends_with_zip_exec(file_name) {
        file_name.substring_char(0, file_name.unicode_len() - 4)
    } else {
        file_name
    }
}

/// The name shown for an archive: derived from the stem of its file name when the stem
/// has the `{distro}_{edition}_{version}` shape, else the stem itself.
pub fn display_name(file_name: &str) -> (r: String)
    ensures
        r@ == listed_name(file_name@),
{
    let stem = strip_zip_suffix(file_name);
    match format_name(stem) {
        Some(d) => d,
        None => String::from_str(stem),
    }
}

fn copy_text(s: &String) -> (r: String)
    ensures
        r@ == s@,
{
    String::from_str(s.as_str())
}

fn copy_opt_text(o: &Option<String>) -> (r: Option<String>)
    ensures
        opt_text(r) == opt_text(*o),
{
    match o {
        Some(s) => Some(copy_text(s)),
        None => None,
    }
}

/// The EFI partition: `"<efi_size>MB"`, FAT-formatted, with the firmware and the
/// installer data copied from the "esp" source.
pub fn efi_partition(efi_size: u32) -> (p: Partition)
    ensures
        is_efi_partition(p, efi_size),
{
    Partition {
        name: String::from_str("EFI"),
        part_type: String::from_str("EFI"),
        size: format_megabytes(efi_size),
        format: Some(String::from_str("fat")),
        copy_firmware: Some(true),
        copy_installer_data: Some(true),
        source: Some(String::from_str("esp")),
        expand: None,
        image: None,
    }
}

/// The Root partition: the image `image` of `bytes` bytes, sized in whole gigabytes and
/// expanded at install time.
pub fn root_partition(bytes: u64, image: &str) -> (p: Partition)
    ensures
        is_root_partition(p, bytes, image@),
{
    Partition {
        name: String::from_str("Root"),
        part_type: String::from_str("Linux"),
        size: format_gigabytes(bytes),
        format: None,
        copy_firmware: None,
        copy_installer_data: None,
        source: None,
        expand: Some(true),
        image: Some(String::from_str(image)),
    }
}

/// The entry for the archive `file_name` whose rootfs image has `bytes` bytes.
pub fn os_entry(file_name: &str, settings: &Settings, bytes: u64) -> (e: OsEntry)
    ensures
        describes(e, file_name@, *settings, bytes),
        has_standard_layout(e),
{
    let mut supported_fw: Vec<String> = Vec::new();
    supported_fw.push(String::from_str("13.5"));
    let mut partitions: Vec<Partition> = Vec::new();
    partitions.push(efi_partition(settings.efi_size));
    partitions.push(root_partition(bytes, settings.image_name.as_str()));
    OsEntry {
        name: display_name(file_name),
        default_os_name: copy_text(&settings.os_name),
        boot_object: String::from_str("m1n1.bin"),
        next_object: String::from_str("m1n1/boot.bin"),
        package: String::from_str(file_name),
        icon: copy_opt_text(&settings.icon),
        supported_fw,
        partitions,
    }
}

/// Inserts `e` after every entry whose name is not after its own, which keeps the
/// list sorted and entries of equal names in the order they were added.
pub fn insert_sorted(list: &mut Vec<OsEntry>, e: OsEntry)
    requires
        sorted_by_name(old(list)@),
    ensures
        final(list)@ == old(list)@.insert(insertion_point(old(list)@, e.name@, 0), e),
        sorted_by_name(final(list)@),
{
    let n = list.len();
    let mut j: usize = 0;
    while j < n && !text_less(e.name.as_str(), list[j].name.as_str())
        invariant
            n == list@.len(),
            j <= n,
            insertion_point(list@, e.name@, 0) == insertion_point(list@, e.name@, j as int),
        decreases n - j,
    {
        j = j + 1;
    }
    let ghost s = list@;
    let ghost name = e.name@;
    proof {
        lemma_insertion_point(s, name, 0);
        if j < n {
            lemma_text_lt_asymmetric(name, s[j as int].name@, 0);
        }
    }
    list.insert(j, e);
    proof {
        let t = list@;
        assert forall|p: int, q: int| 0 <= p < q < t.len() implies !text_lt(
            #[trigger] t[q].name@,
            #[trigger] t[p].name@,
        ) by {
            if q < j {
                assert(t[p] == s[p] && t[q] == s[q]);
            } else if q == j {
                assert(t[p] == s[p] && t[q].name@ == name);
                assert(!text_lt(name, s[p].name@));
            } else if p > j {
                assert(t[p] == s[p - 1] && t[q] == s[q - 1]);
            } else if p == j {
                let sq = s[q - 1];
                assert(t[p].name@ == name && t[q] == sq);
                assert(text_lt(name, s[j as int].name@));
                if text_lt(sq.name@, name) {
                    lemma_text_lt_split(name, s[j as int].name@, sq.name@, 0);
                    if q - 1 > j {
                        assert(!text_lt(s[q - 1].name@, s[j as int].name@));
                    } else if text_lt(sq.name@, sq.name@) {
                        lemma_text_lt_asymmetric(sq.name@, sq.name@, 0);
                    }
                }
            } else {
                assert(t[p] == s[p] && t[q] == s[q - 1]);
            }
        }
    }
}

/// Adds the entry for the archive `file_name` to a sorted list, at the place its name
/// sorts to. The archive's rootfs size is that of its first entry named
/// `settings.image_name`. Nothing is added when an error is returned: `Unreadable` exactly
/// when the record of that entry, or of one before it, cannot be read (of any entry, when
/// none has the name); otherwise `EntryNotFound` exactly when no entry has that name.
pub fn add_archive(
    list: &mut Vec<OsEntry>,
    file_name: &str,
    archive: &mut Archive,
    settings: &Settings,
) -> (r: Result<(), ArchiveError>)
    requires
        sorted_by_name(old(list)@),
        forall|k: int| 0 <= k < old(list)@.len() ==> has_standard_layout(#[trigger] old(list)@[k]),
    ensures
        sorted_by_name(final(list)@),
        forall|k: int|
            0 <= k < final(list)@.len() ==> has_standard_layout(#[trigger] final(list)@[k]),
        archive_entries(*final(archive)) == archive_entries(*old(archive)),
        readable_entries(*final(archive)) == readable_entries(*old(archive)),
        match r {
            Ok(()) => {
                let bytes = entry_size_of(archive_entries(*old(archive)), settings.image_name@);
                let j = insertion_point(old(list)@, listed_name(file_name@), 0);
                &&& bytes is Some
                &&& describes(final(list)@[j], file_name@, *settings, bytes->Some_0)
                &&& final(list)@ == old(list)@.insert(j, final(list)@[j])
            },
            Err(ArchiveError::EntryNotFound { entry_name }) => {
                &&& entry_size_of(archive_entries(*old(archive)), settings.image_name@) is None
                &&& entry_name@ == settings.image_name@
                &&& final(list)@ == old(list)@
            },
            Err(ArchiveError::Unreadable(_)) => {
                &&& !readable_through(*old(archive), settings.image_name@)
                &&& final(list)@ == old(list)@
            },
        },
        r is Ok || r->Err_0 is EntryNotFound <==> readable_through(
            *old(archive),
            settings.image_name@,
        ),
{
    let bytes = match find_entry_size(archive, settings.image_name.as_str()) {
        Ok(b) => b,
        Err(e) => {
            return Err(e);
        },
    };
    let e = os_entry(file_name, settings, bytes);
    let ghost old_list = list@;
    let ghost entry = e;
    insert_sorted(list, e);
    proof {
        lemma_insertion_point(old_list, entry.name@, 0);
        let j = insertion_point(old_list, entry.name@, 0);
        assert(list@[j] == entry);
        assert forall|k: int| 0 <= k < list@.len() implies has_standard_layout(
            #[trigger] list@[k],
        ) by {
            if k < j {
                assert(list@[k] == old_list[k]);
            } else if k > j {
                assert(list@[k] == old_list[k - 1]);
            }
        }
    }
    Ok(())
}

} // verus!
