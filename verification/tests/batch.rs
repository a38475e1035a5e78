use jietu_viewer::batch::{
    batch_rename_preview, ext_with_dot, format_date, local_now, plan_rename, target_verdict,
    CivilNow, RenamePlan,
};
use jietu_viewer::calendar::civil_from_days;

fn t(year: i64, month: u32, day: u32, hour: u32, minute: u32, second: u32) -> CivilNow {
    CivilNow { year, month, day, hour, minute, second }
}

#[test]
fn civil_dates() {
    assert_eq!(civil_from_days(0), (1970, 1, 1));
    assert_eq!(civil_from_days(-1), (1969, 12, 31));
    assert_eq!(civil_from_days(19723), (2024, 1, 1));
    assert_eq!(civil_from_days(19782), (2024, 2, 29));
    assert_eq!(civil_from_days(11016), (2000, 2, 29));
    assert_eq!(civil_from_days(-719468), (0, 3, 1));
    assert_eq!(civil_from_days(2932896), (9999, 12, 31));
}

#[test]
fn local_time_from_seconds() {
    assert_eq!(local_now(0, 8 * 3600), t(1970, 1, 1, 8, 0, 0));
    assert_eq!(local_now(1_700_000_000, 0), t(2023, 11, 14, 22, 13, 20));
    assert_eq!(local_now(0, -1), t(1969, 12, 31, 23, 59, 59));
}

#[test]
fn date_tokens() {
    let now = t(2024, 3, 5, 7, 8, 9);
    assert_eq!(format_date("yyyy-MM-dd HH:mm:ss", &now), "2024-03-05 07:08:09");
    assert_eq!(format_date("yyyyMMdd_", &now), "20240305_");
    assert_eq!(format_date("yyy年M月", &now), "yyy年M月");
    assert_eq!(format_date("", &now), "");
    assert_eq!(format_date("yyyy", &t(-5, 1, 1, 0, 0, 0)), "-005");
    assert_eq!(format_date("yyyy", &t(12345, 1, 1, 0, 0, 0)), "12345");
    assert_eq!(format_date("yyyy", &t(7, 1, 1, 0, 0, 0)), "0007");
}

#[test]
fn preview_names() {
    let names = vec!["a.jpg".to_string(), "b.PNG".to_string(), "noext".to_string(), ".hidden".to_string()];
    let now = t(2024, 3, 5, 7, 8, 9);
    let r = batch_rename_preview(&names, "img_", 1, 3, false, "yyyy", &now);
    assert_eq!(r, vec!["img_001.jpg", "img_002.PNG", "img_003", "img_004"]);
    let r = batch_rename_preview(&names[..1].to_vec(), "", 9, 0, true, "yyyyMMdd_", &now);
    assert_eq!(r, vec!["20240305_9.jpg"]);
    let r = batch_rename_preview(&vec!["x.gif".to_string(), "y.gif".to_string()], "p", u32::MAX, 2, false, "", &now);
    assert_eq!(r, vec!["p4294967295.gif", "p4294967295.gif"]);
    assert_eq!(ext_with_dot("dir.v2/file.tar.gz"), ".gz");
    assert_eq!(ext_with_dot("dir.v2/file"), "");
}

#[test]
fn rename_refusals() {
    match plan_rename("C:/p/a.jpg", "b.jpg", false) {
        RenamePlan::Fail(m) => assert_eq!(m, "C:/p/a.jpg：源文件不存在"),
        _ => panic!("missing source"),
    }
    match plan_rename("/p/a.jpg", "   ", true) {
        RenamePlan::Fail(m) => assert_eq!(m, "/p/a.jpg：新文件名为空"),
        _ => panic!("empty name"),
    }
    match plan_rename("/p/a.jpg", " x/y.jpg ", true) {
        RenamePlan::Fail(m) => assert_eq!(m, "/p/a.jpg → x/y.jpg：新文件名非法（不能包含路径分隔符）"),
        _ => panic!("separator"),
    }
    match plan_rename("/p/a.jpg", "..", true) {
        RenamePlan::Fail(m) => assert_eq!(m, "/p/a.jpg → ..：新文件名非法（不能包含路径分隔符）"),
        _ => panic!("dot-dot"),
    }
    match plan_rename("/", "b.jpg", true) {
        RenamePlan::Fail(m) => assert_eq!(m, "/：路径缺少父目录"),
        _ => panic!("no parent"),
    }
}

#[test]
fn rename_moves() {
    assert!(matches!(plan_rename("/p/a.jpg", "a.jpg", true), RenamePlan::Keep));
    match plan_rename("/p/a.jpg", " b.jpg", true) {
        RenamePlan::Move { new_path, case_only } => {
            assert_eq!(new_path, "/p/b.jpg");
            assert!(!case_only);
        }
        _ => panic!("plain move"),
    }
    match plan_rename("/p/a.jpg", "A.JPG", true) {
        RenamePlan::Move { new_path, case_only } => {
            assert_eq!(new_path, "/p/A.JPG");
            assert!(case_only);
        }
        _ => panic!("case-only move"),
    }
    assert_eq!(target_verdict("/p/a.jpg", " b.jpg", false, true), Err("/p/a.jpg → b.jpg：目标已存在，已跳过".to_string()));
    assert_eq!(target_verdict("/p/a.jpg", "A.JPG", true, true), Ok(()));
    assert_eq!(target_verdict("/p/a.jpg", "b.jpg", false, false), Ok(()));
}

#[test]
fn civil_round_trip_samples() {
    for z in [-800_000i64, -1, 0, 59, 60, 365, 10957, 11016, 19782, 2_932_896] {
        let (y, m, d) = civil_from_days(z);
        assert!((1..=12).contains(&m) && (1..=31).contains(&d));
        let (y2, m2, d2) = civil_from_days(z + 1);
        let next = if (y2, m2, d2) == (y, m, d + 1) || (d2 == 1 && (m2 == m + 1 && y2 == y || m2 == 1 && m == 12 && y2 == y + 1)) { true } else { false };
        assert!(next, "day {} -> {:?} then {:?}", z, (y, m, d), (y2, m2, d2));
    }
}
