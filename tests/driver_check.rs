use geforcedrvchk3::{
    candidate_locations, compare, confirmation_needed, dispatch, extract_version_information,
    get_available_version_information, installed_version_from_output, pick_location, selection,
    Action, BaseDirectory, CheckError, Choice, ComparisonResult, DownloadTask, NVIDIA_URL, SMI,
};

/// Stands in for the lookup service.
fn get_test_page(_url: &str) -> Result<String, CheckError> {
    let json = r#"{ "Success" : "1", "IDS" : [ { "downloadInfo": { "Version" : "123.45", "DownloadURL" : "https://example.com/test.exe" } } ] }"#;
    Ok(json.to_string())
}

fn unreachable_page(_url: &str) -> Result<String, CheckError> {
    Err(CheckError::NetworkError)
}

#[test]
fn get_available_version_information_success() {
    assert_eq!(get_available_version_information(get_test_page).is_ok(), true);
}

#[test]
fn get_available_version_number_success() {
    assert_eq!(get_available_version_information(get_test_page).unwrap().0, "123.45");
}

#[test]
fn get_available_version_url_success() {
    assert_eq!(
        get_available_version_information(get_test_page).unwrap().1,
        "https://example.com/test.exe"
    );
}

#[test]
fn fetch_stub_pipeline_yields_version_and_url() {
    let stub = |_url: &str| -> Result<String, CheckError> {
        Ok(r#"{"IDS":[{"downloadInfo":{"Version":"123.45","DownloadURL":"https://example.com/test.exe"}}]}"#.to_string())
    };
    assert_eq!(
        get_available_version_information(stub).unwrap(),
        ("123.45".to_string(), "https://example.com/test.exe".to_string())
    );
}

#[test]
fn fetch_is_asked_for_the_lookup_url() {
    let stub = |url: &str| -> Result<String, CheckError> {
        assert_eq!(url, NVIDIA_URL);
        get_test_page(url)
    };
    assert!(get_available_version_information(stub).is_ok());
}

#[test]
fn fetch_failure_is_passed_on() {
    assert_eq!(
        get_available_version_information(unreachable_page),
        Err(CheckError::NetworkError)
    );
}

#[test]
fn extract_returns_exact_fields() {
    let payload = r#"{"IDS":[{"downloadInfo":{"Version":"551.23","DownloadURL":"https://example.com/a b.exe"}},{"downloadInfo":{"Version":"1.0","DownloadURL":"x"}}]}"#;
    assert_eq!(
        extract_version_information(payload),
        Ok(("551.23".to_string(), "https://example.com/a b.exe".to_string()))
    );
}

#[test]
fn extract_long_strings() {
    let long_url = format!("https://example.com/{}.exe", "d".repeat(100));
    let payload = format!(
        r#"{{"IDS":[{{"downloadInfo":{{"Version":"551.23","DownloadURL":"{}"}}}}]}}"#,
        long_url
    );
    assert_eq!(
        extract_version_information(&payload),
        Ok(("551.23".to_string(), long_url))
    );
}

#[test]
fn extract_rejects_text_that_is_not_json() {
    assert_eq!(extract_version_information(""), Err(CheckError::MalformedJson));
    assert_eq!(extract_version_information("<html></html>"), Err(CheckError::MalformedJson));
    assert_eq!(extract_version_information(r#"{"IDS": ["#), Err(CheckError::MalformedJson));
}

#[test]
fn extract_rejects_json_without_the_fields() {
    assert_eq!(extract_version_information("{}"), Err(CheckError::SchemaMismatch));
    assert_eq!(extract_version_information("[1, 2]"), Err(CheckError::SchemaMismatch));
    assert_eq!(extract_version_information(r#"{"IDS":[]}"#), Err(CheckError::SchemaMismatch));
    assert_eq!(
        extract_version_information(r#"{"IDS":[{"downloadInfo":{"Version":"551.23"}}]}"#),
        Err(CheckError::SchemaMismatch)
    );
    assert_eq!(
        extract_version_information(r#"{"IDS":[{"downloadInfo":{"DownloadURL":"u"}}]}"#),
        Err(CheckError::SchemaMismatch)
    );
    assert_eq!(
        extract_version_information(r#"{"IDS":[{"downloadInfo":{"Version":551.23,"DownloadURL":"u"}}]}"#),
        Err(CheckError::SchemaMismatch)
    );
    assert_eq!(
        extract_version_information(r#"{"IDS":{"downloadInfo":{"Version":"1.2","DownloadURL":"u"}}}"#),
        Err(CheckError::SchemaMismatch)
    );
}

#[test]
fn equal_versions_are_not_outdated() {
    assert_eq!(compare("123.45", "123.45"), Ok(ComparisonResult::UpToDate));
}

#[test]
fn lower_version_is_outdated() {
    assert_eq!(compare("123.44", "123.45"), Ok(ComparisonResult::Outdated));
    assert_eq!(compare("123.45", "123.44"), Ok(ComparisonResult::Ahead));
}

#[test]
fn versions_compare_as_decimal_numbers() {
    assert_eq!(compare("551.1", "551.10"), Ok(ComparisonResult::UpToDate));
    assert_eq!(compare("551.9", "551.10"), Ok(ComparisonResult::Ahead));
    assert_eq!(compare("551.10", "551.23"), Ok(ComparisonResult::Outdated));
    assert_eq!(compare("99.99", "100.0"), Ok(ComparisonResult::Outdated));
    assert_eq!(compare("0551.23", "551.23"), Ok(ComparisonResult::UpToDate));
    assert_eq!(compare("552.0", "551.999"), Ok(ComparisonResult::Ahead));
}

#[test]
fn versions_beyond_machine_integers() {
    assert_eq!(
        compare("123456789012345678901234567890.1", "123456789012345678901234567890.2"),
        Ok(ComparisonResult::Outdated)
    );
    assert_eq!(
        compare("1.00000000000000000000000000001", "1.0000000000000000000000000000"),
        Ok(ComparisonResult::Ahead)
    );
}

#[test]
fn malformed_versions_are_rejected() {
    for bad in ["", "551", "551.", ".23", "a.b", "551.23.1", "551,23", " 551.23", "-1.0", "１.２"] {
        assert_eq!(compare(bad, "551.23"), Err(CheckError::FormatError), "{bad}");
        assert_eq!(compare("551.23", bad), Err(CheckError::FormatError), "{bad}");
    }
}

#[test]
fn probe_finds_version_in_noise() {
    let output = b"+-----+\n| NVIDIA-SMI 551.23   Driver Version: 123.45   CUDA Version: 12.4 |\nmore noise";
    assert_eq!(installed_version_from_output(output), Ok("123.45".to_string()));
}

#[test]
fn probe_takes_the_first_match() {
    let output = b"Driver Version: 1.2\nDriver Version: 3.4\n";
    assert_eq!(installed_version_from_output(output), Ok("1.2".to_string()));
}

#[test]
fn probe_survives_invalid_bytes() {
    let output = b"\xff\xfe garbage \xc3 Driver Version: 551.23 \x80";
    assert_eq!(installed_version_from_output(output), Ok("551.23".to_string()));
}

#[test]
fn probe_without_version_fails() {
    assert_eq!(installed_version_from_output(b""), Err(CheckError::PatternNotFound));
    assert_eq!(
        installed_version_from_output(b"Driver Version: 551"),
        Err(CheckError::PatternNotFound)
    );
    assert_eq!(
        installed_version_from_output(b"driver version: 551.23"),
        Err(CheckError::PatternNotFound)
    );
}

#[test]
fn candidates_in_priority_order() {
    let c = candidate_locations(SMI);
    assert_eq!(c.len(), 2);
    assert_eq!(c[0].base, BaseDirectory::SystemRoot);
    assert_eq!(c[0].parts, vec!["System32".to_string(), "nvidia-smi.exe".to_string()]);
    assert_eq!(c[1].base, BaseDirectory::ProgramFiles);
    assert_eq!(
        c[1].parts,
        vec!["NVIDIA Corporation".to_string(), "NVSMI".to_string(), "nvidia-smi.exe".to_string()]
    );
    assert_eq!(BaseDirectory::SystemRoot.variable(), "windir");
    assert_eq!(BaseDirectory::ProgramFiles.variable(), "ProgramFiles");
}

#[test]
fn first_existing_location_wins() {
    let at = |a: bool, b: bool| vec![("new".to_string(), a), ("old".to_string(), b)];
    assert_eq!(pick_location(&at(true, true)), Ok("new".to_string()));
    assert_eq!(pick_location(&at(false, true)), Ok("old".to_string()));
    assert_eq!(pick_location(&at(false, false)), Err(CheckError::NotFound));
    assert_eq!(pick_location(&vec![]), Err(CheckError::NotFound));
}

#[test]
fn blank_input_selects_default() {
    assert_eq!(selection("\n", &['d', 'q'], 0), Some(0));
    assert_eq!(selection("", &['d', 'q'], 1), Some(1));
    assert_eq!(selection(" \t\r\n", &['y', 'n'], 1), Some(1));
}

#[test]
fn input_selects_by_first_character_ignoring_case() {
    assert_eq!(selection("d\n", &['d', 'q'], 0), Some(0));
    assert_eq!(selection("Q\n", &['d', 'q'], 0), Some(1));
    assert_eq!(selection("quit\n", &['d', 'q'], 0), Some(1));
    assert_eq!(selection("y", &['Y', 'N'], 1), Some(0));
    assert_eq!(selection("n", &['n', 'n'], 0), Some(0));
}

#[test]
fn unknown_input_asks_again() {
    assert_eq!(selection("x\n", &['d', 'q'], 0), None);
    assert_eq!(selection(" d\n", &['d', 'q'], 0), None);
}

#[test]
fn outdated_driver_opens_download_page_once() {
    let (installed, available, url) = ("551.10", "551.23", "https://example.com/driver.exe");
    let result = compare(installed, available).unwrap();
    assert_eq!(result, ComparisonResult::Outdated);
    assert!(confirmation_needed(result));
    let choices = [Choice::OpenDownloadPage, Choice::Quit];
    let index = selection("d\n", &['d', 'q'], 0).unwrap();
    match dispatch(result, choices[index], url) {
        Action::OpenBrowser(u) => assert_eq!(u, url),
        other => panic!("unexpected action {other:?}"),
    }
    assert!(matches!(dispatch(result, Choice::Quit, url), Action::Quit));
    match dispatch(result, Choice::AutoInstall, url) {
        Action::AutoInstall(u) => assert_eq!(u, url),
        other => panic!("unexpected action {other:?}"),
    }
}

#[test]
fn current_driver_needs_no_action() {
    let result = compare("551.23", "551.23").unwrap();
    assert_eq!(result, ComparisonResult::UpToDate);
    assert!(!confirmation_needed(result));
    assert!(matches!(dispatch(result, Choice::OpenDownloadPage, "https://example.com/driver.exe"), Action::NoActionNeeded));
    let ahead = compare("552.00", "551.23").unwrap();
    assert!(!confirmation_needed(ahead));
    assert!(matches!(dispatch(ahead, Choice::AutoInstall, "u"), Action::NoActionNeeded));
}

#[test]
fn every_error_has_a_message() {
    assert_eq!(CheckError::NetworkError.message(), "Unable to access the online resources!");
    assert_eq!(CheckError::PatternNotFound.message(), "Cannot find installed version information!");
    for e in [
        CheckError::NetworkError,
        CheckError::EncodingError,
        CheckError::MalformedJson,
        CheckError::SchemaMismatch,
        CheckError::MissingEnvironment,
        CheckError::NotFound,
        CheckError::ExecutionError,
        CheckError::PatternNotFound,
        CheckError::FormatError,
        CheckError::CreateError,
        CheckError::TransferError,
    ] {
        assert!(!e.message().is_empty());
    }
}

#[test]
fn download_progress_reaches_announced_size() {
    let mut task = DownloadTask::new("https://example.com/d.exe", "d.exe", Some(10));
    assert_eq!(task.url(), "https://example.com/d.exe");
    assert_eq!(task.destination(), "d.exe");
    assert_eq!((task.total(), task.transferred()), (Some(10), 0));
    assert_eq!(task.finish(), Err(CheckError::TransferError));
    assert_eq!(task.record(4), Ok(()));
    assert_eq!(task.record(6), Ok(()));
    assert_eq!(task.transferred(), 10);
    assert_eq!(task.finish(), Ok(()));
}

#[test]
fn download_beyond_announced_size_fails() {
    let mut task = DownloadTask::new("u", "d", Some(5));
    assert_eq!(task.record(3), Ok(()));
    assert_eq!(task.record(3), Err(CheckError::TransferError));
    assert_eq!(task.transferred(), 3);
    assert_eq!(task.finish(), Err(CheckError::TransferError));
}

#[test]
fn download_of_unknown_size() {
    let mut task = DownloadTask::new("u", "d", None);
    assert_eq!(task.finish(), Ok(()));
    assert_eq!(task.record(u64::MAX - 1), Ok(()));
    assert_eq!(task.record(2), Err(CheckError::TransferError));
    assert_eq!(task.record(1), Ok(()));
    assert_eq!(task.transferred(), u64::MAX);
    assert_eq!(task.finish(), Ok(()));
}
