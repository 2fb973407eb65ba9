use cursor_analysis::storage::{
    format_size, get_cursor_user_path, get_cursor_workspaces_path, get_storage_info,
    get_trash_db_path, Platform, StorageSizes,
};

fn by_floating_point(size: u64) -> String {
    const KB: u64 = 1024;
    const MB: u64 = KB * 1024;
    const GB: u64 = MB * 1024;
    if size >= GB {
        format!("{:.2} GB", size as f64 / GB as f64)
    } else if size >= MB {
        format!("{:.2} MB", size as f64 / MB as f64)
    } else if size >= KB {
        format!("{:.2} KB", size as f64 / KB as f64)
    } else {
        format!("{} B", size)
    }
}

#[test]
fn format_size_in_bytes() {
    assert_eq!(format_size(0), "0 B");
    assert_eq!(format_size(7), "7 B");
    assert_eq!(format_size(1023), "1023 B");
}

#[test]
fn format_size_in_units() {
    assert_eq!(format_size(1024), "1.00 KB");
    assert_eq!(format_size(1536), "1.50 KB");
    assert_eq!(format_size(1024 * 1024), "1.00 MB");
    assert_eq!(format_size(1024 * 1024 * 1024), "1.00 GB");
    assert_eq!(format_size(5 * 1024 * 1024 * 1024 + 512 * 1024 * 1024), "5.50 GB");
    assert_eq!(format_size(1048575), "1024.00 KB");
}

#[test]
fn format_size_rounds_ties_to_even() {
    // 1.125 KB and 1.375 KB lie exactly between two hundredths.
    assert_eq!(format_size(1152), "1.12 KB");
    assert_eq!(format_size(1408), "1.38 KB");
    assert_eq!(format_size(1152), by_floating_point(1152));
    assert_eq!(format_size(1408), by_floating_point(1408));
}

#[test]
fn format_size_agrees_with_floating_point_on_small_sizes() {
    let mut size: u64 = 0;
    while size < 300_000 {
        assert_eq!(format_size(size), by_floating_point(size), "size {}", size);
        size += 1;
    }
}

#[test]
fn format_size_agrees_with_floating_point_across_the_range() {
    let mut state: u64 = 0x9e37_79b9_7f4a_7c15;
    let mut round = 0;
    while round < 200_000 {
        state ^= state << 13;
        state ^= state >> 7;
        state ^= state << 17;
        let size = state >> (round % 64);
        assert_eq!(format_size(size), by_floating_point(size), "size {}", size);
        round += 1;
    }
}

#[test]
fn format_size_agrees_with_floating_point_near_powers_of_two() {
    let mut bit = 10;
    while bit < 64 {
        let centre: u64 = 1 << bit;
        let mut delta: u64 = 0;
        while delta < 3000 {
            let below = centre - delta;
            let above = centre.saturating_add(delta);
            assert_eq!(format_size(below), by_floating_point(below), "size {}", below);
            assert_eq!(format_size(above), by_floating_point(above), "size {}", above);
            delta += 1;
        }
        bit += 1;
    }
    assert_eq!(format_size(u64::MAX), by_floating_point(u64::MAX));
    assert_eq!(format_size(u64::MAX), "17179869184.00 GB");
}

#[test]
fn storage_info_sums_the_three_directories() {
    let sizes = StorageSizes {
        global_storage: 2048,
        history: 1024,
        workspace_storage: 1024 * 1024,
        state_vscdb: 512,
        state_vscdb_backup: 100,
    };
    assert!(sizes.can_be_summed());
    let info = get_storage_info(&sizes);
    assert_eq!(info.total_size, 2048 + 1024 + 1024 * 1024);
    assert_eq!(info.total_size_human, "1.00 MB");
    assert_eq!(info.global_storage_size, 2048);
    assert_eq!(info.global_storage_size_human, "2.00 KB");
    assert_eq!(info.history_size_human, "1.00 KB");
    assert_eq!(info.workspace_storage_size_human, "1.00 MB");
    assert_eq!(info.state_vscdb_size, 512);
    assert_eq!(info.state_vscdb_backup_size, 100);
}

#[test]
fn trash_file_lies_in_the_user_directory() {
    assert_eq!(
        get_trash_db_path("/home/ann/.config/Cursor/User"),
        "/home/ann/.config/Cursor/User/cursor-analysis-trash.db"
    );
    assert_eq!(get_trash_db_path("/data/"), "/data/cursor-analysis-trash.db");
    assert_eq!(get_trash_db_path(""), "cursor-analysis-trash.db");
}

#[test]
fn the_user_directory_depends_on_the_platform() {
    assert_eq!(
        get_cursor_user_path(Platform::Linux, "/home/ann"),
        "/home/ann/.config/Cursor/User"
    );
    assert_eq!(
        get_cursor_user_path(Platform::MacOs, "/Users/ann"),
        "/Users/ann/Library/Application Support/Cursor/User"
    );
    assert_eq!(
        get_cursor_user_path(Platform::Windows, "C:\\Users\\ann\\AppData\\Roaming"),
        "C:\\Users\\ann\\AppData\\Roaming/Cursor/User"
    );
    assert_eq!(
        get_cursor_workspaces_path(Platform::Linux, "/home/ann/"),
        "/home/ann/.config/Cursor/Workspaces"
    );
    assert_eq!(
        get_cursor_workspaces_path(Platform::MacOs, "/Users/ann"),
        "/Users/ann/Library/Application Support/Cursor/Workspaces"
    );
    assert_eq!(
        get_cursor_workspaces_path(Platform::Windows, "D:\\data"),
        "D:\\data/Cursor/Workspaces"
    );
}
