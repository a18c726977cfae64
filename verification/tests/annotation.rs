use sound_annotation::annotate::{
    build_plan, label_json_line, plan_annotation, save_root_dir_path, AnnotateError,
    AnnotationData, Label, Range,
};
use sound_annotation::jsonl::{check_number_text, escape_string};
use sound_annotation::pathname::{extension_of, join_path};

const STEM: &str = "123e4567-e89b-12d3-a456-426614174000";

fn range(start: &str, end: &str) -> Range {
    Range { start: start.to_string(), end: end.to_string() }
}

fn request(path: &str) -> AnnotationData {
    AnnotationData {
        file_path: path.to_string(),
        entire: range("0", "10"),
        point: range("2", "2"),
    }
}

#[test]
fn extension_plain() {
    assert_eq!(extension_of("/tmp/a.WAV").as_deref(), Some("WAV"));
    assert_eq!(extension_of("song.mp3").as_deref(), Some("mp3"));
    assert_eq!(extension_of("a.tar.gz").as_deref(), Some("gz"));
}

#[test]
fn extension_missing() {
    assert_eq!(extension_of("noext"), None);
    assert_eq!(extension_of("/tmp/noext"), None);
    assert_eq!(extension_of(""), None);
}

#[test]
fn extension_hidden_file() {
    assert_eq!(extension_of(".gitignore"), None);
    assert_eq!(extension_of("/home/u/.vimrc"), None);
    assert_eq!(extension_of(".config.bak").as_deref(), Some("bak"));
}

#[test]
fn extension_trailing_dot() {
    assert_eq!(extension_of("a.").as_deref(), Some(""));
}

#[test]
fn extension_dot_in_directory_only() {
    assert_eq!(extension_of("dir.v/file"), None);
}

#[test]
fn extension_backslash_separators() {
    assert_eq!(extension_of("C:\\music\\b.MP3").as_deref(), Some("MP3"));
    assert_eq!(extension_of("C:\\music.d\\b"), None);
}

#[test]
fn extension_parent_dir_marker() {
    assert_eq!(extension_of("x/.."), None);
    assert_eq!(extension_of(".."), None);
}

#[test]
fn join_inserts_separator() {
    assert_eq!(join_path("/data", "f.wav"), "/data/f.wav");
}

#[test]
fn join_keeps_existing_separator() {
    assert_eq!(join_path("/data/", "f.wav"), "/data/f.wav");
    assert_eq!(join_path("C:\\data\\", "f.wav"), "C:\\data\\f.wav");
}

#[test]
fn join_empty_dir() {
    assert_eq!(join_path("", "f.wav"), "f.wav");
}

#[test]
fn save_root_dir_under_app_data() {
    assert_eq!(
        save_root_dir_path("/home/u/.local/share/app"),
        "/home/u/.local/share/app/sound-annotation"
    );
}

#[test]
fn escape_plain_text_unchanged() {
    assert_eq!(escape_string("abc-123.wav"), "abc-123.wav");
}

#[test]
fn escape_quotes_and_backslashes() {
    assert_eq!(escape_string("a\"b\\c"), "a\\\"b\\\\c");
}

#[test]
fn escape_named_controls() {
    assert_eq!(escape_string("a\nb\tc\r"), "a\\nb\\tc\\r");
    assert_eq!(escape_string("\u{8}\u{c}"), "\\b\\f");
}

#[test]
fn escape_other_controls_as_hex() {
    assert_eq!(escape_string("\u{1}\u{1f}"), "\\u0001\\u001f");
}

#[test]
fn escape_matches_reference_writer() {
    for s in ["plain", "q\"uote", "back\\slash", "new\nline", "ctl\u{2}x", "wide-é-字"] {
        let reference = serde_json::to_string(s).unwrap();
        let ours = format!("\"{}\"", escape_string(s));
        assert_eq!(ours, reference);
    }
}

#[test]
fn number_text_accepts_rendered_numbers() {
    assert!(check_number_text("0"));
    assert!(check_number_text("10"));
    assert!(check_number_text("-1.5e3"));
    assert!(check_number_text("2.25"));
}

#[test]
fn number_text_rejects_other_text() {
    assert!(!check_number_text(""));
    assert!(!check_number_text("x"));
    assert!(!check_number_text("1,2"));
    assert!(!check_number_text("1}"));
}

#[test]
fn label_line_exact_form() {
    let label = Label {
        file: format!("{}.wav", STEM),
        entire: range("0", "10"),
        point: range("2", "2"),
    };
    let expected = format!(
        "{{\"file\":\"{}.wav\",\"entire\":{{\"start\":0,\"end\":10}},\"point\":{{\"start\":2,\"end\":2}}}}",
        STEM
    );
    assert_eq!(label_json_line(&label), expected);
}

#[test]
fn label_line_parses_back() {
    let label = Label {
        file: "n\"me.wav".to_string(),
        entire: range("0.5", "9.25"),
        point: range("2", "2"),
    };
    let line = label_json_line(&label);
    let value: serde_json::Value = serde_json::from_str(&line).unwrap();
    assert_eq!(value["file"].as_str(), Some("n\"me.wav"));
    assert_eq!(value["entire"]["start"].as_f64(), Some(0.5));
    assert_eq!(value["entire"]["end"].as_f64(), Some(9.25));
    assert_eq!(value["point"]["start"].as_f64(), Some(2.0));
    assert_eq!(value["point"]["end"].as_f64(), Some(2.0));
}

#[test]
fn plan_lowercases_extension() {
    let plan = build_plan("/data", request("/tmp/a.WAV"), STEM).unwrap();
    assert_eq!(plan.copied_file_name, format!("{}.wav", STEM));
    assert_eq!(extension_of(&plan.copied_file_name).as_deref(), Some("wav"));
}

#[test]
fn plan_lays_out_paths() {
    let plan = build_plan("/data", request("/tmp/a.WAV"), STEM).unwrap();
    assert_eq!(plan.save_root_dir, "/data/sound-annotation");
    assert_eq!(
        plan.copied_file_path,
        format!("/data/sound-annotation/{}.wav", STEM)
    );
    assert_eq!(plan.labels_file_path, "/data/sound-annotation/labels.jsonl");
}

#[test]
fn plan_log_line_names_the_copy() {
    let plan = build_plan("/data", request("/tmp/a.WAV"), STEM).unwrap();
    let expected = format!(
        "{{\"file\":\"{}.wav\",\"entire\":{{\"start\":0,\"end\":10}},\"point\":{{\"start\":2,\"end\":2}}}}",
        STEM
    );
    assert_eq!(plan.log_line, expected);
    let value: serde_json::Value = serde_json::from_str(&plan.log_line).unwrap();
    assert_eq!(value["file"].as_str().unwrap(), plan.copied_file_name);
}

#[test]
fn plan_without_extension_fails() {
    let r = build_plan("/data", request("/tmp/noext"), STEM);
    assert_eq!(r.unwrap_err(), AnnotateError::NoExtension);
    let r = plan_annotation("/data", request("noext"));
    assert_eq!(r.unwrap_err(), AnnotateError::NoExtension);
}

#[test]
fn planned_names_carry_fresh_identifiers() {
    let p1 = plan_annotation("/data", request("/tmp/a.WAV")).unwrap();
    let p2 = plan_annotation("/data", request("/tmp/b.flac")).unwrap();
    assert!(p1.copied_file_name.ends_with(".wav"));
    assert!(p2.copied_file_name.ends_with(".flac"));
    let stem1 = p1.copied_file_name.strip_suffix(".wav").unwrap();
    let stem2 = p2.copied_file_name.strip_suffix(".flac").unwrap();
    assert_eq!(stem1.len(), 36);
    assert_eq!(stem2.len(), 36);
    assert_ne!(stem1, stem2);
    for (i, c) in stem1.chars().enumerate() {
        if i == 8 || i == 13 || i == 18 || i == 23 {
            assert_eq!(c, '-');
        } else {
            assert!(c.is_ascii_hexdigit() && !c.is_ascii_uppercase());
        }
    }
}

#[test]
fn log_line_has_no_line_terminator() {
    let mut data = request("/tmp/a.WAV");
    data.entire = range("-1.5e3", "2.25");
    let plan = plan_annotation("/data", data).unwrap();
    assert!(!plan.log_line.contains('\n'));
}
