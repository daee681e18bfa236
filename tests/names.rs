use nomino::hex::{bytes_to_text, hex_decode_text, hex_encode_text};
use nomino::names::{column_index_of, column_letter_to_index, is_image_extension, sanitize_filename};
use nomino::process::{pause_process, resume_process, stop_process, ProcessState};

#[test]
fn sanitize_replaces_forbidden_characters() {
    assert_eq!(sanitize_filename("a<b>c:d\"e/f\\g|h?i*j"), "a_b_c_d_e_f_g_h_i_j");
    assert_eq!(sanitize_filename("Şəkil 1"), "Şəkil 1");
}

#[test]
fn sanitize_trims_whitespace_then_dots() {
    assert_eq!(sanitize_filename("  ..name..  "), "name");
    assert_eq!(sanitize_filename("\t report \n"), "report");
    assert_eq!(sanitize_filename(". a"), " a");
    assert_eq!(sanitize_filename("a. "), "a");
}

#[test]
fn sanitize_falls_back_when_nothing_is_left() {
    assert_eq!(sanitize_filename(""), "Adsız_Qovluq");
    assert_eq!(sanitize_filename(" ... "), "Adsız_Qovluq");
    assert_eq!(sanitize_filename("?"), "_");
}

#[test]
fn column_letters_to_indices() {
    assert_eq!(column_letter_to_index("A"), Ok(0));
    assert_eq!(column_letter_to_index("z"), Ok(25));
    assert_eq!(column_letter_to_index("AA"), Ok(26));
    assert_eq!(column_letter_to_index("ab"), Ok(27));
    assert_eq!(column_letter_to_index("XFD"), Ok(16383));
}

#[test]
fn bad_column_letters() {
    assert_eq!(
        column_letter_to_index("a1"),
        Err("Yanlış sütun hərfi: A1".to_string())
    );
    assert_eq!(column_letter_to_index(""), Err("Yanlış sütun hərfi: ".to_string()));
    assert_eq!(column_index_of("b"), Err("Yanlış sütun hərfi: b".to_string()));
    let long = "Z".repeat(20);
    assert_eq!(column_index_of(&long), Err(format!("Yanlış sütun hərfi: {}", long)));
}

#[test]
fn image_extensions() {
    for ext in ["jpg", "jpeg", "png", "gif", "bmp", "tiff", "tif", "webp"].iter() {
        assert!(is_image_extension(ext));
    }
    assert!(!is_image_extension("JPG"));
    assert!(!is_image_extension("pdf"));
    assert!(!is_image_extension(""));
    assert!(!is_image_extension("jpgx"));
}

#[test]
fn hex_encoding() {
    assert_eq!(hex_encode_text("AB"), "4142");
    assert_eq!(hex_encode_text("01.02.2024"), "30312E30322E32303234");
    assert_eq!(hex_encode_text("ə"), "C999");
    assert_eq!(hex_encode_text(""), "");
}

#[test]
fn hex_decoding() {
    assert_eq!(hex_decode_text("4142"), Some("AB".to_string()));
    assert_eq!(hex_decode_text("4a6b"), Some("Jk".to_string()));
    assert_eq!(hex_decode_text("C999"), Some("ə".to_string()));
    assert_eq!(hex_decode_text(""), None);
    assert_eq!(hex_decode_text("414"), None);
    assert_eq!(hex_decode_text("zz"), None);
    assert_eq!(hex_decode_text("41G1"), None);
}

#[test]
fn hex_decoding_falls_back_to_one_char_per_byte() {
    assert_eq!(hex_decode_text("E9"), Some("é".to_string()));
    assert_eq!(hex_decode_text("80"), None);
    assert_eq!(bytes_to_text(vec![0x80, 0x41]), Some("\u{80}A".to_string()));
    assert_eq!(bytes_to_text(vec![0x81]), None);
    assert_eq!(bytes_to_text(vec![]), Some(String::new()));
}

#[test]
fn process_lifecycle() {
    let mut s = ProcessState::new();
    assert!(!s.is_running() && !s.is_paused() && !s.should_stop());
    s.start();
    assert!(s.is_running() && !s.is_paused() && !s.should_stop());
    s.pause();
    assert!(s.is_paused() && s.is_running());
    s.resume();
    assert!(!s.is_paused() && s.is_running());
    s.stop();
    assert!(s.should_stop() && !s.is_running() && !s.is_paused());
    s.reset();
    assert!(!s.is_running() && !s.is_paused() && !s.should_stop());
    assert_eq!(s.current_index, 0);
    let d = ProcessState::default();
    assert!(!d.is_running && !d.is_paused && !d.should_stop);
}

#[test]
fn process_requests() {
    let mut s = ProcessState::new();
    assert_eq!(pause_process(&mut s), Err("Proses işləmir".to_string()));
    assert_eq!(resume_process(&mut s), Err("Proses fasilədə deyil".to_string()));
    assert_eq!(stop_process(&mut s), Err("Proses işləmir".to_string()));
    s.start();
    assert_eq!(resume_process(&mut s), Err("Proses fasilədə deyil".to_string()));
    assert_eq!(pause_process(&mut s), Ok(()));
    assert!(s.is_paused());
    assert_eq!(resume_process(&mut s), Ok(()));
    assert!(!s.is_paused());
    assert_eq!(stop_process(&mut s), Ok(()));
    assert!(s.should_stop() && !s.is_running());
}
