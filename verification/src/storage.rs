//! Where the editor keeps its data, and how much of it there is.

use crate::text::{decimal, digit_char, digit_of, join, join_path, push_decimal, text_of};
use vstd::prelude::*;

verus! {

/// The bytes that the editor's data directories hold.
#[derive(Debug, Clone)]
pub struct StorageInfo {
    pub total_size: u64,
    pub total_size_human: String,
    pub global_storage_size: u64,
    pub global_storage_size_human: String,
    pub history_size: u64,
    pub history_size_human: String,
    pub workspace_storage_size: u64,
    pub workspace_storage_size_human: String,
    pub state_vscdb_size: u64,
    pub state_vscdb_backup_size: u64,
}

/// The operating systems on which the editor's data directory is known.
#[derive(Debug, Clone, Copy, PartialEq, Eq, Structural)]
pub enum Platform {
    MacOs,
    Windows,
    Linux,
}

pub const KB: u64 = 1024;

pub const MB: u64 = 1048576;

pub const GB: u64 = 1073741824;

/// `n / d` rounded to the nearest integer, a tie going to the even one.
pub open spec fn round_half_even(n: nat, d: nat) -> nat {
    let q = n / d;
    let r = n % d;
    if 2 * r > d || (2 * r == d && q % 2 == 1) {
        q + 1
    } else {
        q
    }
}

/// The distance between neighbouring double-precision numbers around
/// `size`: the least power of two `p` with `size / p` below two to the 53rd.
pub open spec fn double_spacing(size: nat) -> nat {
    if size < 0x20_0000_0000_0000 {
        1
    } else if size < 0x40_0000_0000_0000 {
        2
    } else if size < 0x80_0000_0000_0000 {
        4
    } else if size < 0x100_0000_0000_0000 {
        8
    } else if size < 0x200_0000_0000_0000 {
        16
    } else if size < 0x400_0000_0000_0000 {
        32
    } else if size < 0x800_0000_0000_0000 {
        64
    } else if size < 0x1000_0000_0000_0000 {
        128
    } else if size < 0x2000_0000_0000_0000 {
        256
    } else if size < 0x4000_0000_0000_0000 {
        512
    } else if size < 0x8000_0000_0000_0000 {
        1024
    } else {
        2048
    }
}

/// The double-precision number nearest to `size`, a tie going to the one
/// with an even significand: what a 64-bit count becomes as a double.
pub open spec fn nearest_double(size: nat) -> nat {
    let p = double_spacing(size);
    round_half_even(size, p) * p
}

/// `size / unit` in hundredths, as printing the double `size / unit` to two
/// decimal places rounds it.
pub open spec fn hundredths(size: nat, unit: nat) -> nat {
    round_half_even(nearest_double(size) * 100, unit)
}

/// A count of hundredths written with two decimal places.
pub open spec fn two_places(h: nat) -> Seq<char> {
    decimal(h / 100) + seq!['.', digit_char((h / 10 % 10) as int), digit_char((h % 10) as int)]
}

/// A size in bytes for a reader: in `GB`, `MB` or `KB` (powers of 1024) with
/// two decimal places from the first unit that the size reaches, else in
/// whole bytes.
pub open spec fn size_text(size: u64) -> Seq<char> {
    if size >= GB {
        two_places(hundredths(size as nat, GB as nat)) + seq![' ', 'G', 'B']
    } else if size >= MB {
        two_places(hundredths(size as nat, MB as nat)) + seq![' ', 'M', 'B']
    } else if size >= KB {
        two_places(hundredths(size as nat, KB as nat)) + seq![' ', 'K', 'B']
    } else {
        decimal(size as nat) + seq![' ', 'B']
    }
}

fn divide_half_even(n: u128, d: u128) -> (q: u128)
    requires
        d > 0,
        n / d < u128::MAX,
        d <= 0x4000_0000_0000_0000_0000,
    ensures
        q == round_half_even(n as nat, d as nat),
{
    let q = n / d;
    let r = n % d;
    if 2 * r > d || (2 * r == d && q % 2 == 1) {
        q + 1
    } else {
        q
    }
}

spec fn is_spacing(p: u64) -> bool {
    p == 1 || p == 2 || p == 4 || p == 8 || p == 16 || p == 32 || p == 64 || p == 128 || p == 256
        || p == 512 || p == 1024 || p == 2048
}

fn spacing_of(size: u64) -> (p: u64)
    ensures
        p == double_spacing(size as nat),
        0 < p <= 2048,
{
    let mut p: u64 = 1;
    while size / p >= 0x20_0000_0000_0000
        invariant
            is_spacing(p),
            p == 1 || size / (p / 2) >= 0x20_0000_0000_0000,
        decreases 2048 - p,
    {
        assert(p != 2048);
        p = p * 2;
    }
    proof {
        let bound = 0x20_0000_0000_0000int;
        if p == 1 {
            assert(size / 1 < bound);
        } else if p == 2 {
            assert(size / 2 < bound && size / 1 >= bound);
        } else if p == 4 {
            assert(size / 4 < bound && size / 2 >= bound);
        } else if p == 8 {
            assert(size / 8 < bound && size / 4 >= bound);
        } else if p == 16 {
            assert(size / 16 < bound && size / 8 >= bound);
        } else if p == 32 {
            assert(size / 32 < bound && size / 16 >= bound);
        } else if p == 64 {
            assert(size / 64 < bound && size / 32 >= bound);
        } else if p == 128 {
            assert(size / 128 < bound && size / 64 >= bound);
        } else if p == 256 {
            assert(size / 256 < bound && size / 128 >= bound);
        } else if p == 512 {
            assert(size / 512 < bound && size / 256 >= bound);
        } else if p == 1024 {
            assert(size / 1024 < bound && size / 512 >= bound);
        } else {
            assert(size / 1024 >= bound);
        }
    }
    p
}

fn hundredths_of(size: u64, unit: u64) -> (h: u128)
    requires
        unit == KB || unit == MB || unit == GB,
    ensures
        h == hundredths(size as nat, unit as nat),
        h <= 0x1_0000_0000_0000_0000,
{
    let p = spacing_of(size);
    let rounded = divide_half_even(size as u128, p as u128);
    assert(rounded <= size as int / p as int + 1);
    assert(rounded * p <= 0x1_0000_0000_0000_0800) by (nonlinear_arith)
        requires
            rounded <= size as int / p as int + 1,
            0 < p <= 2048,
            size <= 0xffff_ffff_ffff_ffff,
    ;
    let nearest: u128 = rounded * (p as u128);
    let h = divide_half_even(nearest * 100, unit as u128);
    assert(h <= 0x1_0000_0000_0000_0000) by (nonlinear_arith)
        requires
            h <= (nearest * 100) as int / unit as int + 1,
            unit >= 1024,
            nearest <= 0x1_0000_0000_0000_0800,
    ;
    h
}

fn push_scaled(out: &mut Vec<char>, size: u64, unit: u64)
    requires
        unit == KB || unit == MB || unit == GB,
    ensures
        final(out)@ == old(out)@ + two_places(hundredths(size as nat, unit as nat)),
{
    let h = hundredths_of(size, unit);
    push_decimal(out, h / 100);
    out.push('.');
    out.push(digit_of((h / 10 % 10) as u8));
    out.push(digit_of((h % 10) as u8));
    assert(final(out)@ =~= old(out)@ + two_places(h as nat));
}

/// Writes a size in bytes for a reader.
pub fn format_size(size: u64) -> (r: String)
    ensures
        r@ == size_text(size),
{
    let mut out: Vec<char> = Vec::new();
    if size >= GB {
        push_scaled(&mut out, size, GB);
        out.push(' ');
        out.push('G');
        out.push('B');
        assert(out@ =~= size_text(size));
    } else if size >= MB {
        push_scaled(&mut out, size, MB);
        out.push(' ');
        out.push('M');
        out.push('B');
        assert(out@ =~= size_text(size));
    } else if size >= KB {
        push_scaled(&mut out, size, KB);
        out.push(' ');
        out.push('K');
        out.push('B');
        assert(out@ =~= size_text(size));
    } else {
        push_decimal(&mut out, size as u128);
        out.push(' ');
        out.push('B');
        assert(out@ =~= size_text(size));
    }
    text_of(&out)
}

/// The bytes found on disk: in each of the three data directories, and in
/// the central store and its backup.
#[derive(Debug, Clone, Copy)]
pub struct StorageSizes {
    pub global_storage: u64,
    pub history: u64,
    pub workspace_storage: u64,
    pub state_vscdb: u64,
    pub state_vscdb_backup: u64,
}

impl StorageSizes {
    /// The three directories together hold no more bytes than a counter can
    /// count.
    pub open spec fn fits(self) -> bool {
        self.global_storage + self.history + self.workspace_storage <= u64::MAX
    }

    /// Decides `fits`.
    pub fn can_be_summed(&self) -> (r: bool)
        ensures
            r == self.fits(),
    {
        let sum: u128 = self.global_storage as u128 + self.history as u128
            + self.workspace_storage as u128;
        sum <= 0xffff_ffff_ffff_ffffu128
    }
}

/// Sums up what the data directories hold. `total_size` covers the global
/// storage, the history and the workspace storage; the two store files lie
/// inside the global storage and are listed beside it.
pub fn get_storage_info(sizes: &StorageSizes) -> (info: StorageInfo)
    requires
        sizes.fits(),
    ensures
        info.total_size == sizes.global_storage + sizes.history + sizes.workspace_storage,
        info.total_size_human@ == size_text(info.total_size),
        info.global_storage_size == sizes.global_storage,
        info.global_storage_size_human@ == size_text(sizes.global_storage),
        info.history_size == sizes.history,
        info.history_size_human@ == size_text(sizes.history),
        info.workspace_storage_size == sizes.workspace_storage,
        info.workspace_storage_size_human@ == size_text(sizes.workspace_storage),
        info.state_vscdb_size == sizes.state_vscdb,
        info.state_vscdb_backup_size == sizes.state_vscdb_backup,
{
    let total_size = sizes.global_storage + sizes.history + sizes.workspace_storage;
    StorageInfo {
        total_size,
        total_size_human: format_size(total_size),
        global_storage_size: sizes.global_storage,
        global_storage_size_human: format_size(sizes.global_storage),
        history_size: sizes.history,
        history_size_human: format_size(sizes.history),
        workspace_storage_size: sizes.workspace_storage,
        workspace_storage_size_human: format_size(sizes.workspace_storage),
        state_vscdb_size: sizes.state_vscdb,
        state_vscdb_backup_size: sizes.state_vscdb_backup,
    }
}

/// The editor's user directory, below the directory that the platform
/// gives an application for its data: the home directory on macOS and
/// Linux, the roaming application data on Windows.
pub open spec fn user_path(platform: Platform, base: Seq<char>) -> Seq<char> {
    match platform {
        Platform::MacOs => join_path(base, "Library/Application Support/Cursor/User"@),
        Platform::Windows => join_path(base, "Cursor/User"@),
        Platform::Linux => join_path(base, ".config/Cursor/User"@),
    }
}

/// The editor's directory of multi-root workspace files, below the same base.
pub open spec fn workspaces_path(platform: Platform, base: Seq<char>) -> Seq<char> {
    match platform {
        Platform::MacOs => join_path(base, "Library/Application Support/Cursor/Workspaces"@),
        Platform::Windows => join_path(base, "Cursor/Workspaces"@),
        Platform::Linux => join_path(base, ".config/Cursor/Workspaces"@),
    }
}

/// The editor's user directory on `platform`, given the platform's base directory.
pub fn get_cursor_user_path(platform: Platform, base: &str) -> (path: String)
    ensures
        path@ == user_path(platform, base@),
{
    match platform {
        Platform::MacOs => join(base, "Library/Application Support/Cursor/User"),
        Platform::Windows => join(base, "Cursor/User"),
        Platform::Linux => join(base, ".config/Cursor/User"),
    }
}

/// The editor's workspaces directory on `platform`, given the platform's base directory.
pub fn get_cursor_workspaces_path(platform: Platform, base: &str) -> (path: String)
    ensures
        path@ == workspaces_path(platform, base@),
{
    match platform {
        Platform::MacOs => join(base, "Library/Application Support/Cursor/Workspaces"),
        Platform::Windows => join(base, "Cursor/Workspaces"),
        Platform::Linux => join(base, ".config/Cursor/Workspaces"),
    }
}

/// The file that holds the trash, inside the editor's user directory.
pub fn get_trash_db_path(user_path: &str) -> (path: String)
    ensures
        path@ == join_path(user_path@, "cursor-analysis-trash.db"@),
{
    join(user_path, "cursor-analysis-trash.db")
}

} // verus!
