use songcompare::options::{
    classify_arg, glob_pattern, parse_args, parse_count, resolved_paths, Arg, ArgError, Command, CorrelatorKind, Options,
    DEFAULT_FADE_SAMPLES,
};

fn args(list: &[&str]) -> Vec<String> {
    list.iter().map(|s| s.to_string()).collect()
}

fn run(list: &[&str]) -> Options {
    match parse_args(&args(list)) {
        Ok(Command::Run(o)) => o,
        other => panic!("expected a run, got {:?}", other),
    }
}

#[test]
fn parse_count_follows_decimal_rules() {
    assert_eq!(parse_count("0"), Some(0));
    assert_eq!(parse_count("1000"), Some(1000));
    assert_eq!(parse_count("+42"), Some(42));
    assert_eq!(parse_count(""), None);
    assert_eq!(parse_count("+"), None);
    assert_eq!(parse_count("-1"), None);
    assert_eq!(parse_count("12a"), None);
    assert_eq!(parse_count(" 1"), None);
    assert_eq!(parse_count("18446744073709551615"), Some(usize::MAX));
    assert_eq!(parse_count("18446744073709551616"), None);
    assert_eq!(parse_count("99999999999999999999999"), None);
}

#[test]
fn defaults_without_options() {
    let o = run(&["a.wav", "b.flac"]);
    assert_eq!(o.files, args(&["a.wav", "b.flac"]));
    assert_eq!(o.normalize_db, None);
    assert!(o.normalize);
    assert!(!o.allow_resample);
    assert_eq!(o.max_shift, 0);
    assert_eq!(o.correlator, CorrelatorKind::GccPhat);
    assert_eq!(o.fade_samples, DEFAULT_FADE_SAMPLES);
    assert_eq!(o.fade_samples, 128);
    assert!(!o.anonymize);
    assert!(!o.debug);
}

#[test]
fn every_documented_option_is_read() {
    let o = run(&[
        "--normalize_db=-18",
        "--no-normalisation",
        "--allow-resample",
        "--maxshift=1000",
        "--correlator=simple",
        "--min-freq=300",
        "--max-freq=4000",
        "--fade-samples=2048",
        "--anonymize",
        "--debug",
        "song1.wav",
    ]);
    assert_eq!(o.normalize_db, Some("-18".to_string()));
    assert!(!o.normalize);
    assert!(o.allow_resample);
    assert_eq!(o.max_shift, 1000);
    assert_eq!(o.correlator, CorrelatorKind::Simple);
    assert_eq!(o.min_freq, Some("300".to_string()));
    assert_eq!(o.max_freq, Some("4000".to_string()));
    assert_eq!(o.fade_samples, 2048);
    assert!(o.anonymize);
    assert!(o.debug);
    assert_eq!(o.files, args(&["song1.wav"]));
}

#[test]
fn later_option_values_win() {
    let o = run(&["--correlator=none", "x.wav", "--correlator=gccphat", "--maxshift=5", "--maxshift=7"]);
    assert_eq!(o.correlator, CorrelatorKind::GccPhat);
    assert_eq!(o.max_shift, 7);
    let o = run(&["--correlator=none"]);
    assert_eq!(o.correlator, CorrelatorKind::Off);
}

#[test]
fn unknown_options_are_refused_not_taken_as_files() {
    assert_eq!(
        parse_args(&args(&["--anonymise", "a.wav"])),
        Err(ArgError::UnknownOption("--anonymise".to_string()))
    );
    assert_eq!(parse_args(&args(&["a.wav", "-x"])), Err(ArgError::UnknownOption("-x".to_string())));
    assert_eq!(parse_args(&args(&["-"])), Err(ArgError::UnknownOption("-".to_string())));
}

#[test]
fn a_dash_file_is_passed_with_a_path() {
    let o = run(&["./-song.wav"]);
    assert_eq!(o.files, args(&["./-song.wav"]));
    assert_eq!(
        parse_args(&args(&["-song.wav"])),
        Err(ArgError::UnknownOption("-song.wav".to_string()))
    );
}

#[test]
fn invalid_values_are_refused() {
    assert_eq!(
        parse_args(&args(&["--maxshift=abc", "a.wav"])),
        Err(ArgError::InvalidValue("--maxshift".to_string(), "abc".to_string()))
    );
    assert_eq!(
        parse_args(&args(&["--fade-samples=-1"])),
        Err(ArgError::InvalidValue("--fade-samples".to_string(), "-1".to_string()))
    );
    assert_eq!(
        parse_args(&args(&["--correlator=fast"])),
        Err(ArgError::InvalidValue("--correlator".to_string(), "fast".to_string()))
    );
}

#[test]
fn help_and_version_answer_at_once() {
    assert_eq!(parse_args(&args(&["-h"])), Ok(Command::Help));
    assert_eq!(parse_args(&args(&["a.wav", "--help"])), Ok(Command::Help));
    assert_eq!(parse_args(&args(&["-V"])), Ok(Command::Version));
    assert_eq!(parse_args(&args(&["--version", "--bogus"])), Ok(Command::Version));
    assert_eq!(
        parse_args(&args(&["--bogus", "--version"])),
        Err(ArgError::UnknownOption("--bogus".to_string()))
    );
}

#[test]
fn classify_arg_recognizes_single_arguments() {
    assert_eq!(classify_arg("--debug"), Ok(Arg::Debug));
    assert_eq!(classify_arg("--maxshift=+12"), Ok(Arg::MaxShift(12)));
    assert_eq!(classify_arg("--normalize_db="), Ok(Arg::NormalizeDb(String::new())));
    assert_eq!(classify_arg("track.mp3"), Ok(Arg::File("track.mp3".to_string())));
    assert_eq!(classify_arg(""), Ok(Arg::File(String::new())));
    assert_eq!(classify_arg("--debug=1"), Err(ArgError::UnknownOption("--debug=1".to_string())));
}

#[test]
fn empty_command_line_is_a_run_without_files() {
    let o = run(&[]);
    assert!(o.files.is_empty());
}

#[test]
fn patterns_fall_back_to_the_literal_path() {
    let pattern = "song*.wav".to_string();
    assert_eq!(
        resolved_paths(&pattern, Some(args(&["song1.wav", "song2.wav"]))),
        args(&["song1.wav", "song2.wav"])
    );
    assert_eq!(resolved_paths(&pattern, Some(Vec::new())), args(&["song*.wav"]));
    assert_eq!(resolved_paths(&pattern, None), args(&["song*.wav"]));
}

#[test]
fn glob_pattern_turns_backslashes_into_slashes() {
    assert_eq!(glob_pattern("C:\\music\\*.wav"), "C:/music/*.wav");
    assert_eq!(glob_pattern("plain.wav"), "plain.wav");
    assert_eq!(glob_pattern("\\\\"), "//");
    assert_eq!(glob_pattern(""), "");
}
