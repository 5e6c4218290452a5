//! Block devices: the table of mounted devices, and the lines that list a
//! disk and its partitions.

use crate::args::{put_setting, settings, with_setting, Setting, SettingView};
use crate::numbers::{parse_u64, parsed_u64};
use crate::text::{chars_of, optional_slice, str_starts_with, string_of, texts};
use crate::words::{split_words, words};
use vstd::prelude::*;

verus! {

/// Bytes in a sector.
pub const SECTOR_SIZE: u64 = 512;

/// The lines of a text: its pieces between line feeds.
pub open spec fn lines(s: Seq<char>) -> Seq<Seq<char>>
    decreases s.len(),
{
    if s.len() == 0 {
        seq![Seq::<char>::empty()]
    } else {
        let before = lines(s.drop_last());
        if s.last() == '\n' {
            before.push(Seq::<char>::empty())
        } else {
            before.drop_last().push(before.last().push(s.last()))
        }
    }
}

/// There is always at least one line.
pub proof fn lemma_lines_nonempty(s: Seq<char>)
    ensures
        lines(s).len() >= 1,
    decreases s.len(),
{
    if s.len() > 0 {
        lemma_lines_nonempty(s.drop_last());
    }
}

/// Splits a text into its lines.
pub fn split_lines(s: &str) -> (parts: Vec<String>)
    ensures
        texts(parts@) == lines(s@),
{
    let cs = chars_of(s);
    let mut parts: Vec<String> = Vec::new();
    let mut line: Vec<char> = Vec::new();
    let mut i: usize = 0;
    while i < cs.len()
        invariant
            i <= cs.len(),
            cs@ == s@,
            texts(parts@).push(line@) == lines(s@.take(i as int)),
        decreases cs.len() - i,
    {
        let ghost done = texts(parts@);
        let ghost open = line@;
        proof {
            assert(s@.take(i + 1).drop_last() =~= s@.take(i as int));
            assert(done.push(open).drop_last() =~= done);
        }
        if cs[i] == '\n' {
            parts.push(string_of(line.as_slice()));
            line = Vec::new();
            proof {
                assert(texts(parts@) =~= done.push(open));
            }
        } else {
            line.push(cs[i]);
        }
        i += 1;
    }
    proof {
        assert(s@.take(s@.len() as int) =~= s@);
    }
    let ghost done = texts(parts@);
    parts.push(string_of(line.as_slice()));
    proof {
        assert(texts(parts@) =~= done.push(line@));
    }
    parts
}

/// The table after a line of the list of mounts has been read: a line of
/// at least two words puts its second word, the mount point, under its
/// first, the device.
pub open spec fn with_mount(table: Seq<SettingView>, line: Seq<char>) -> Seq<SettingView> {
    if words(line).len() >= 2 {
        with_setting(table, words(line)[0], words(line)[1])
    } else {
        table
    }
}

/// The table of the mount lines `list`.
pub open spec fn mounts_of(list: Seq<Seq<char>>) -> Seq<SettingView>
    decreases list.len(),
{
    if list.len() == 0 {
        Seq::<SettingView>::empty()
    } else {
        with_mount(mounts_of(list.drop_last()), list.last())
    }
}

/// The table of mounted devices that the list of mounts `mounts` gives:
/// the mount point of each device. Where a device comes twice, the later
/// line stands.
pub open spec fn mount_table(mounts: Seq<char>) -> Seq<SettingView> {
    mounts_of(lines(mounts))
}

/// Reads the table of mounted devices.
pub fn read_mounts(mounts: &str) -> (table: Vec<Setting>)
    ensures
        settings(table@) == mount_table(mounts@),
{
    let list = split_lines(mounts);
    let ghost all = texts(list@);
    let mut table: Vec<Setting> = Vec::new();
    let mut i: usize = 0;
    proof {
        assert(settings(table@) =~= mounts_of(all.take(0)));
    }
    while i < list.len()
        invariant
            i <= list.len(),
            all == texts(list@),
            settings(table@) == mounts_of(all.take(i as int)),
        decreases list.len() - i,
    {
        proof {
            assert(all.take(i + 1).drop_last() =~= all.take(i as int));
            assert(all.take(i + 1).last() == list@[i as int]@);
        }
        let mut fields = split_words(list[i].as_str());
        if fields.len() >= 2 {
            assert(texts(fields@)[0] == fields@[0]@);
            assert(texts(fields@)[1] == fields@[1]@);
            let point = fields.remove(1);
            let device = fields.remove(0);
            put_setting(&mut table, device, point);
        }
        i += 1;
    }
    proof {
        assert(all.take(all.len() as int) =~= all);
    }
    table
}

/// Whether a device is no disk: a loop device or a RAM disk.
pub open spec fn is_virtual(name: Seq<char>) -> bool {
    "loop"@.is_prefix_of(name) || "ram"@.is_prefix_of(name)
}

/// Executable form of [`is_virtual`].
pub fn is_virtual_device(name: &str) -> (is_virtual_name: bool)
    ensures
        is_virtual_name == is_virtual(name@),
{
    str_starts_with(name, "loop") || str_starts_with(name, "ram")
}

/// The number of sectors that the text `text` gives: the number it spells
/// once the white space at its ends is gone, or zero.
pub open spec fn sectors_of(text: Option<Seq<char>>) -> u64 {
    match text {
        Some(t) => match parsed_u64(t) {
            Some(n) => n,
            None => 0,
        },
        None => 0,
    }
}

/// Reads a number of sectors from its text, white space at its ends
/// already gone.
pub fn read_sectors(text: Option<&str>) -> (sectors: u64)
    ensures
        sectors == sectors_of(optional_slice(text)),
{
    match text {
        Some(t) => match parse_u64(t) {
            Some(n) => n,
            None => 0,
        },
        None => 0,
    }
}

/// The size in bytes of a disk of `sectors` sectors.
pub fn disk_size(sectors: u64) -> (bytes: u64)
    requires
        sectors * SECTOR_SIZE <= u64::MAX,
    ensures
        bytes == sectors * SECTOR_SIZE,
{
    sectors * SECTOR_SIZE
}

/// The size in bytes of a disk of `sectors` sectors, if it fits the
/// machine.
pub fn checked_disk_size(sectors: u64) -> (bytes: Option<u64>)
    ensures
        match bytes {
            Some(b) => b == sectors * SECTOR_SIZE,
            None => sectors * SECTOR_SIZE > u64::MAX,
        },
{
    if sectors <= u64::MAX / SECTOR_SIZE {
        Some(disk_size(sectors))
    } else {
        None
    }
}

/// The path of the device named `name`.
pub open spec fn device_name(name: Seq<char>) -> Seq<char> {
    "/dev/"@ + name
}

/// Executable form of [`device_name`].
pub fn device_path(name: &str) -> (path: String)
    ensures
        path@ == device_name(name@),
{
    let mut path = String::from_str("/dev/");
    path.append(name);
    path
}

/// `n` blanks.
pub open spec fn blanks(n: nat) -> Seq<char> {
    Seq::new(n, |i: int| ' ')
}

/// The text `s` with blanks after it up to a width of `width` characters.
pub open spec fn padded(s: Seq<char>, width: nat) -> Seq<char> {
    if s.len() >= width {
        s
    } else {
        s + blanks((width - s.len()) as nat)
    }
}

/// Width of the column of mount points.
pub const MOUNT_WIDTH: usize = 15;

/// The line that lists a partition: its path, its mount point and its
/// identifier, a hyphen standing for a missing one.
pub open spec fn partition_line(path: Seq<char>, mount: Option<Seq<char>>, uuid: Option<Seq<char>>) -> Seq<
    char,
> {
    "    \u{2514}\u{2500} "@ + path + " - mount: "@ + padded(
        match mount {
            Some(m) => m,
            None => "-"@,
        },
        MOUNT_WIDTH as nat,
    ) + " - UUID: "@ + match uuid {
        Some(u) => u,
        None => "-"@,
    }
}

/// Writes the line that lists a partition.
pub fn format_partition(path: &str, mount: Option<&str>, uuid: Option<&str>) -> (line: String)
    ensures
        line@ == partition_line(
            path@,
            optional_slice(mount),
            optional_slice(uuid),
        ),
{
    let mount_text = match mount {
        Some(m) => m,
        None => "-",
    };
    let uuid_text = match uuid {
        Some(u) => u,
        None => "-",
    };
    let mut line = String::from_str("    \u{2514}\u{2500} ");
    line.append(path);
    line.append(" - mount: ");
    line.append(mount_text);
    let ghost head = line@;
    let shown = mount_text.unicode_len();
    let mut n: usize = shown;
    proof {
        assert(line@ =~= head + blanks(0));
    }
    while n < MOUNT_WIDTH
        invariant
            shown <= n,
            n <= MOUNT_WIDTH || n == shown,
            line@ == head + blanks((n - shown) as nat),
        decreases MOUNT_WIDTH - n,
    {
        line.push(' ');
        proof {
            assert(line@ =~= head + blanks((n + 1 - shown) as nat));
        }
        n += 1;
    }
    let ghost body = line@;
    line.append(" - UUID: ");
    line.append(uuid_text);
    proof {
        if shown >= MOUNT_WIDTH {
            assert(body =~= head);
        }
    }
    line
}

} // verus!
