use wordhist::args::{parse_usize, Args};

fn argv(parts: &[&str]) -> Vec<String> {
    parts.iter().map(|s| s.to_string()).collect()
}

fn expect_err(r: Result<Args, String>) -> String {
    match r {
        Err(e) => e,
        Ok(_) => panic!("expected an error"),
    }
}

#[test]
fn help() {
    let ret = Args::new(argv(&["program_name", "-h"]));
    assert!(ret.is_err());
}

#[test]
fn accepts_directory_argument() {
    let ret = Args::new(argv(&["program_name", "some_dir"]));
    let args = ret.unwrap();
    assert_eq!(args.working_dir().unwrap(), "some_dir");
    assert_eq!(args.bin_size(), 1);
    assert!(!args.include_zeroes());
}

#[test]
fn accepts_zeroes_flag() {
    let args = Args::new(argv(&["program_name", "-z", "some_dir"])).unwrap();
    assert!(args.include_zeroes());
}

#[test]
fn accepts_bin_size() {
    let args = Args::new(argv(&["program_name", "-b100", "some_dir"])).unwrap();
    assert_eq!(args.bin_size(), 100);
}

#[test]
fn rejects_missing_directory() {
    assert!(Args::new(argv(&["program_name"])).is_err());
}

#[test]
fn rejects_zero_bin_size() {
    assert!(Args::new(argv(&["program_name", "-b0", "some_dir"])).is_err());
}

#[test]
fn rejects_bad_bin_size() {
    assert!(Args::new(argv(&["program_name", "-bxyz", "some_dir"])).is_err());
}

#[test]
fn rejects_unknown_flag() {
    assert!(Args::new(argv(&["program_name", "-q", "some_dir"])).is_err());
}

#[test]
fn parses_decimals() {
    assert_eq!(parse_usize("42"), Some(42));
    assert_eq!(parse_usize("+7"), Some(7));
    assert_eq!(parse_usize("0"), Some(0));
    assert_eq!(parse_usize(""), None);
    assert_eq!(parse_usize("+"), None);
    assert_eq!(parse_usize("4x2"), None);
    assert_eq!(parse_usize("99999999999999999999999999"), None);
}

#[test]
fn help_carries_usage_text() {
    let e = expect_err(Args::new(argv(&["program_name", "-h"])));
    assert!(e.starts_with("Usage: program_name directory_path [options]"));
}

#[test]
fn missing_directory_message() {
    let e = expect_err(Args::new(argv(&["program_name"])));
    assert!(e.starts_with("ERROR: Directory '' is empty!\n"));
    assert!(e.contains("Usage: program_name directory_path [options]"));
}

#[test]
fn zero_bin_size_message() {
    let e = expect_err(Args::new(argv(&["program_name", "-b0", "some_dir"])));
    assert!(e.starts_with("ERROR: bin size must be a positive number!\n"));
}

#[test]
fn empty_directory_argument_rejected() {
    assert!(Args::new(argv(&["program_name", ""])).is_err());
}

#[test]
fn accepts_long_options() {
    let args = Args::new(argv(&["program_name", "--bin-size=7", "--with-zeroes", "some_dir"]))
        .unwrap();
    assert_eq!(args.bin_size(), 7);
    assert!(args.include_zeroes());
}
