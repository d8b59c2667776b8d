use canvas_cli::download::{keep_files_by_ids, sort_files, File};

fn file(id: u32, filename: &str, updated_at: i64) -> File {
    File {
        id,
        filename: filename.to_string(),
        url: format!("https://x.edu/files/{}", id),
        size: 10,
        updated_at,
    }
}

#[test]
fn keeps_only_requested_ids_in_order() {
    let files = vec![file(1, "a", 0), file(2, "b", 0), file(3, "c", 0)];
    let kept = keep_files_by_ids(files, &vec![3, 1]);
    let ids: Vec<u32> = kept.iter().map(|f| f.id).collect();
    assert_eq!(ids, vec![1, 3]);
}

#[test]
fn keeps_nothing_for_unknown_ids() {
    let files = vec![file(1, "a", 0)];
    let kept = keep_files_by_ids(files, &vec![9]);
    assert_eq!(kept.len(), 0);
}

#[test]
fn sorts_by_update_time_ascending() {
    let mut files = vec![file(1, "a", 30), file(2, "b", 10), file(3, "c", 20)];
    sort_files(&mut files);
    let ids: Vec<u32> = files.iter().map(|f| f.id).collect();
    assert_eq!(ids, vec![2, 3, 1]);
}
