use rados_list::{
    file_path, finish_listing, parse_bucket_list, parse_cutoff, process_bucket,
    report_file_name, status_write_plan, Discrepancy, Finding, ObjectPage, ObjectRecord,
    Paginator, ReconcileError, ReconciliationMap, RunStatus, AGGREGATE_FILE, REPORT_PREFIX,
    STATUS_FILE,
};

fn stored(key: &str, size: u64) -> ObjectRecord {
    ObjectRecord::new(key.to_string(), size, "2023-07-21T12:28:10.490Z".to_string())
}

fn list_in_pages(pages: Vec<ObjectPage>) -> Paginator {
    let mut paginator = Paginator::new();
    for page in pages {
        assert!(paginator.next_request().is_some());
        paginator.accept(page);
    }
    paginator
}

fn save_status(file: &mut Option<String>, data: &str) -> Result<(), ReconcileError> {
    if status_write_plan(data, file.is_some())? {
        *file = Some(data.to_string());
    }
    Ok(())
}

#[test]
fn test_save_hashmap_to_file() {
    let data = ReconciliationMap::new();
    let bucket_name = "test_bucket";
    let path_to_file_dir = "./";
    assert_eq!(report_file_name(bucket_name), "rados_copy_details_test_bucket");
    assert_eq!(
        file_path(path_to_file_dir, &report_file_name(bucket_name)),
        ".//rados_copy_details_test_bucket"
    );
    assert_eq!(data.entries(), Vec::new());
}

#[test]
fn test_save_str_to_file() {
    let file_name = "rados_copy_details_test";
    let path_to_file_dir = "./";
    assert_eq!(file_path(path_to_file_dir, file_name), ".//rados_copy_details_test");
}

#[test]
fn test_save_status_to_file() {
    let mut file: Option<String> = None;
    let file_name = "rados_copy_status_test";
    let path_to_file_dir = "./";
    assert_eq!(file_path(path_to_file_dir, file_name), format!("{}/{}", path_to_file_dir, file_name));
    let data = "1";
    save_status(&mut file, data).unwrap();
    let data = "0";
    save_status(&mut file, data).unwrap(); // this value should not overwrite the file
    let file_data = file.unwrap();
    assert_eq!(file_data, "1");
}

#[test]
fn file_names_are_fixed() {
    assert_eq!(REPORT_PREFIX, "rados_copy_details_");
    assert_eq!(AGGREGATE_FILE, "rados_copy_details");
    assert_eq!(STATUS_FILE, "rados_copy_status");
    assert_eq!(report_file_name("b1"), "rados_copy_details_b1");
    assert_eq!(report_file_name(""), "rados_copy_details_");
    assert_eq!(file_path("/out", "rados_copy_status"), "/out/rados_copy_status");
    assert_eq!(file_path("", "f"), "/f");
}

#[test]
fn status_plan_for_each_case() {
    assert_eq!(status_write_plan("0", false), Ok(true));
    assert_eq!(status_write_plan("0", true), Ok(false));
    assert_eq!(status_write_plan("1", false), Ok(true));
    assert_eq!(status_write_plan("1", true), Ok(true));
}

#[test]
fn status_plan_refuses_anything_but_a_flag() {
    for data in ["", "2", "01", "10", "11", "00", " 1", "1\n", "one", "é"] {
        assert_eq!(status_write_plan(data, false), Err(ReconcileError::PersistenceError));
        assert_eq!(status_write_plan(data, true), Err(ReconcileError::PersistenceError));
    }
}

#[test]
fn clean_run_creates_a_fresh_status_file() {
    let mut file: Option<String> = None;
    save_status(&mut file, "0").unwrap();
    assert_eq!(file, Some("0".to_string()));
    save_status(&mut file, "0").unwrap();
    assert_eq!(file, Some("0".to_string()));
    save_status(&mut file, "1").unwrap();
    assert_eq!(file, Some("1".to_string()));
}

#[test]
fn status_file_is_never_downgraded() {
    let mut file = Some("1".to_string());
    for data in ["0", "1", "0", "0"] {
        save_status(&mut file, data).unwrap();
        assert_eq!(file, Some("1".to_string()));
    }
    assert_eq!(save_status(&mut file, "x"), Err(ReconcileError::PersistenceError));
    assert_eq!(file, Some("1".to_string()));
}

#[test]
fn run_starts_clean() {
    let status = RunStatus::new();
    assert!(!status.has_mismatch());
    assert_eq!(status.flag(), "0");
    assert_eq!(status.mismatching_buckets(), &Vec::<String>::new());
    assert_eq!(status.aggregate_text(), "");
}

#[test]
fn mismatch_turns_the_run_for_good() {
    let mut status = RunStatus::new();
    let clean = ReconciliationMap::new();
    let dirty = ReconciliationMap::new().seed(vec![stored("k", 1)]);
    assert!(!status.record("first", &clean));
    assert_eq!(status.flag(), "0");
    assert!(status.record("second", &dirty));
    assert_eq!(status.flag(), "1");
    assert!(!status.record("third", &clean));
    assert_eq!(status.flag(), "1");
    assert!(status.has_mismatch());
    assert!(status.record("fourth", &dirty));
    assert_eq!(status.mismatching_buckets(), &vec!["second".to_string(), "fourth".to_string()]);
    assert_eq!(status.aggregate_text(), "second\nfourth\n");
}

#[test]
fn process_bucket_reports_only_mismatches() {
    let mut status = RunStatus::new();
    let agreed = process_bucket(&mut status, "same", vec![stored("k", 1)], vec![stored("k", 1)]);
    assert!(agreed.is_none());
    assert_eq!(status.flag(), "0");
    let differed = process_bucket(&mut status, "differs", vec![stored("k", 1)], vec![stored("k", 2)]);
    assert_eq!(
        differed.unwrap().entries(),
        vec![Finding { key: "k".to_string(), discrepancy: Discrepancy::Mismatch(1, 2) }]
    );
    assert_eq!(status.flag(), "1");
    assert_eq!(status.aggregate_text(), "differs\n");
}

#[test]
fn end_to_end_run() {
    let cutoff = parse_cutoff("2044-11-28T21:00:09+09:00").unwrap();
    let buckets = parse_bucket_list("b1\n\nb2");
    assert_eq!(buckets, vec!["b1".to_string(), "b2".to_string()]);

    let mut status = RunStatus::new();
    let mut reports: Vec<(String, Vec<Finding>)> = Vec::new();
    for bucket in &buckets {
        let (pages_a, pages_b) = if bucket == "b1" {
            (
                vec![
                    ObjectPage::new(vec![stored("x", 10)], Some("next".to_string())),
                    ObjectPage::new(vec![stored("y", 20)], None),
                ],
                vec![ObjectPage::new(vec![stored("x", 10), stored("y", 25)], None)],
            )
        } else {
            (
                vec![ObjectPage::new(vec![stored("z", 5)], None)],
                vec![
                    ObjectPage::new(Vec::new(), Some("t".to_string())),
                    ObjectPage::new(vec![stored("z", 5)], None),
                ],
            )
        };
        let filtered_a = finish_listing(list_in_pages(pages_a), &cutoff).unwrap();
        let filtered_b = finish_listing(list_in_pages(pages_b), &cutoff).unwrap();
        if let Some(map) = process_bucket(&mut status, bucket, filtered_a, filtered_b) {
            reports.push((report_file_name(bucket), map.entries()));
        }
    }

    assert_eq!(
        reports,
        vec![(
            "rados_copy_details_b1".to_string(),
            vec![Finding { key: "y".to_string(), discrepancy: Discrepancy::Mismatch(20, 25) }]
        )]
    );
    assert_eq!(status.mismatching_buckets(), &vec!["b1".to_string()]);
    assert_eq!(status.aggregate_text(), "b1\n");
    assert_eq!(status.flag(), "1");
    assert_eq!(status_write_plan(status.flag(), false), Ok(true));
    assert_eq!(status_write_plan(status.flag(), true), Ok(true));
}

#[test]
fn end_to_end_clean_run() {
    let cutoff = parse_cutoff("2044-11-28T21:00:09+09:00").unwrap();
    let mut status = RunStatus::new();
    for bucket in parse_bucket_list(" only \n") {
        let a = finish_listing(
            list_in_pages(vec![ObjectPage::new(vec![stored("k", 3)], None)]),
            &cutoff,
        )
        .unwrap();
        let b = finish_listing(
            list_in_pages(vec![ObjectPage::new(vec![stored("k", 3)], None)]),
            &cutoff,
        )
        .unwrap();
        assert!(process_bucket(&mut status, &bucket, a, b).is_none());
    }
    assert_eq!(status.flag(), "0");
    assert_eq!(status.aggregate_text(), "");
    assert_eq!(status_write_plan(status.flag(), false), Ok(true));
    assert_eq!(status_write_plan(status.flag(), true), Ok(false));
}

#[test]
fn objects_written_after_the_cutoff_are_left_out() {
    let cutoff = parse_cutoff("2020-01-01T00:00:00Z").unwrap();
    let settled = ObjectRecord::new("k".to_string(), 1, "2019-01-01T00:00:00Z".to_string());
    let in_flight = ObjectRecord::new("w".to_string(), 7, "2020-01-01T00:00:01Z".to_string());
    let a = finish_listing(
        list_in_pages(vec![ObjectPage::new(vec![settled.clone(), in_flight], None)]),
        &cutoff,
    )
    .unwrap();
    let b = finish_listing(list_in_pages(vec![ObjectPage::new(vec![settled], None)]), &cutoff)
        .unwrap();
    let mut status = RunStatus::new();
    assert!(process_bucket(&mut status, "b", a, b).is_none());
}
