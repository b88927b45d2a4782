use captcha_keyspace::digits::usize_to_string;
use captcha_keyspace::output::{make_path, render_artifact, RenderOptions};

#[test]
fn decimal_rendering() {
    assert_eq!(usize_to_string(0), "0");
    assert_eq!(usize_to_string(7), "7");
    assert_eq!(usize_to_string(42), "42");
    assert_eq!(usize_to_string(1_000_000), "1000000");
}

#[test]
fn path_has_root_key_repetition_format() {
    assert_eq!(make_path("dist", "AB", 0, "png"), "dist/AB.0.png");
    assert_eq!(make_path("out", "Z9", 11, "jpg"), "out/Z9.11.jpg");
}

#[test]
fn paths_differ_for_distinct_work_units() {
    let a0 = make_path("dist", "AA", 0, "png");
    let a1 = make_path("dist", "AA", 1, "png");
    let b0 = make_path("dist", "AB", 0, "png");
    assert_ne!(a0, a1);
    assert_ne!(a0, b0);
    assert_ne!(a1, b0);
}

#[test]
fn path_is_deterministic_for_one_work_unit() {
    let first = make_path("dist", "QX", 3, "png");
    let second = make_path("dist", "QX", 3, "png");
    assert_eq!(first, second);
}

#[test]
fn render_artifact_names_its_path() {
    let opts = RenderOptions {
        length: 2,
        width: 40,
        height: 20,
        complexity: 1,
        dark_mode: false,
    };
    let (path, _image) = render_artifact("dist", "AB", 0, "png", &opts);
    assert_eq!(path, "dist/AB.0.png");
}
