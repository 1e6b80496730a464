use resumable_dl::probe::{check_probe, file_name_of_path, ProbeError};
use resumable_dl::task::get_partial_dirname;

#[test]
fn probe_accepts_positive_length_with_byte_ranges() {
    assert_eq!(check_probe(Some(1000), Some("bytes")), Ok(1000));
    assert_eq!(check_probe(Some(1), Some("bytes")), Ok(1));
}

#[test]
fn probe_errors() {
    assert_eq!(check_probe(None, Some("bytes")), Err(ProbeError::NoContentLength));
    assert_eq!(check_probe(None, None), Err(ProbeError::NoContentLength));
    assert_eq!(check_probe(Some(0), Some("bytes")), Err(ProbeError::EmptyContent));
    assert_eq!(check_probe(Some(5), None), Err(ProbeError::NoRangeSupport));
    assert_eq!(check_probe(Some(5), Some("none")), Err(ProbeError::NoRangeSupport));
    assert_eq!(check_probe(Some(5), Some("Bytes")), Err(ProbeError::NoRangeSupport));
    assert_eq!(check_probe(Some(5), Some("bytes ")), Err(ProbeError::NoRangeSupport));
}

#[test]
fn file_name_is_last_path_segment() {
    assert_eq!(file_name_of_path("/files/data.bin"), Some("data.bin".to_string()));
    assert_eq!(file_name_of_path("/a.iso"), Some("a.iso".to_string()));
    assert_eq!(file_name_of_path("/dir/"), None);
    assert_eq!(file_name_of_path("/"), None);
    assert_eq!(file_name_of_path("plain"), None);
    assert_eq!(file_name_of_path(""), None);
}

#[test]
fn partial_dirname_adds_a_separator() {
    let r = get_partial_dirname("dl".to_string(), "a.bin".to_string(), 4);
    assert!(r == "dl/_a.bin.4" || r == "dl\\_a.bin.4");
    assert_eq!(get_partial_dirname("dl/".to_string(), "a.bin".to_string(), 4), "dl/_a.bin.4");
}
