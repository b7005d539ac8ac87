use elongate::config::{resolve_config, ConfigLayer};
use elongate::digits::{i32_to_dec, parse_i32};
use elongate::paths::ali_path;
use elongate::run::{
    interpret_exit, next_step, stretcher_args, stretcher_program, transcoder_args,
    transcoder_program, RunOutcome, Step,
};

#[test]
fn exit_one_surfaces_stderr_and_aborts_before_stretch() {
    let out = interpret_exit(Some(1), b"ignored".to_vec(), b"bad codec".to_vec());
    match out {
        RunOutcome::Failed { stderr } => assert_eq!(stderr, b"bad codec".to_vec()),
        _ => panic!("a non-zero exit must fail"),
    }
    // the failed transcode step schedules nothing further
    assert_eq!(next_step(Step::Convert, false), None);
}

#[test]
fn exit_zero_succeeds_with_stdout() {
    let out = interpret_exit(Some(0), b"all good".to_vec(), b"noise".to_vec());
    match out {
        RunOutcome::Success { stdout } => assert_eq!(stdout, b"all good".to_vec()),
        _ => panic!("a zero exit must succeed"),
    }
}

#[test]
fn no_exit_code_is_an_interruption() {
    let out = interpret_exit(None, b"".to_vec(), b"killed".to_vec());
    match out {
        RunOutcome::Interrupted { stderr } => assert_eq!(stderr, b"killed".to_vec()),
        _ => panic!("a signal death must interrupt"),
    }
}

#[test]
fn steps_run_in_order_and_stop_on_failure() {
    assert_eq!(next_step(Step::Convert, true), Some(Step::Stretch));
    assert_eq!(next_step(Step::Stretch, true), Some(Step::Rescale));
    assert_eq!(next_step(Step::Rescale, true), Some(Step::Done));
    assert_eq!(next_step(Step::Stretch, false), None);
    assert_eq!(next_step(Step::Rescale, false), None);
}

#[test]
fn transcoder_invocation_is_fixed() {
    assert_eq!(transcoder_program(), b"ffmpeg".to_vec());
    let args = transcoder_args(b"song.wav");
    let want: Vec<Vec<u8>> = vec![
        b"-y".to_vec(),
        b"-i".to_vec(),
        b"song.wav".to_vec(),
        b"-acodec".to_vec(),
        b"pcm_s16le".to_vec(),
        b"/tmp/1.wav".to_vec(),
    ];
    assert_eq!(args, want);
}

#[test]
fn stretcher_invocation_carries_the_tempo() {
    assert_eq!(stretcher_program(), b"soundstretch".to_vec());
    let args = stretcher_args(b"slow.wav", -15);
    let want: Vec<Vec<u8>> = vec![
        b"/tmp/1.wav".to_vec(),
        b"slow.wav".to_vec(),
        b"-tempo=-15".to_vec(),
    ];
    assert_eq!(args, want);
}

#[test]
fn alignment_paths_mirror_audio_paths() {
    assert_eq!(ali_path(b"in.wav"), b"in.ali".to_vec());
    assert_eq!(ali_path(b"out.wav"), b"out.ali".to_vec());
    assert_eq!(ali_path(b".wav"), b".ali".to_vec());
    assert_eq!(ali_path(b"song.mp3"), b"song.mp3".to_vec());
    assert_eq!(ali_path(b""), b"".to_vec());
    assert_eq!(ali_path(b".wa"), b".wa".to_vec());
}

#[test]
fn only_the_extension_is_rewritten() {
    assert_eq!(ali_path(b"dir/a.wav.wav"), b"dir/a.wav.ali".to_vec());
    assert_eq!(ali_path(b"a.wav.files/in.wav"), b"a.wav.files/in.ali".to_vec());
    assert_eq!(ali_path(b"a.wav.bak"), b"a.wav.bak".to_vec());
}

#[test]
fn parse_i32_accepts_what_str_parse_accepts() {
    assert_eq!(parse_i32(b"0"), Some(0));
    assert_eq!(parse_i32(b"+12"), Some(12));
    assert_eq!(parse_i32(b"-15"), Some(-15));
    assert_eq!(parse_i32(b"00042"), Some(42));
    assert_eq!(parse_i32(b"2147483647"), Some(i32::MAX));
    assert_eq!(parse_i32(b"-2147483648"), Some(i32::MIN));
    assert_eq!(parse_i32(b"2147483648"), None);
    assert_eq!(parse_i32(b"-2147483649"), None);
    assert_eq!(parse_i32(b"99999999999999999999"), None);
    assert_eq!(parse_i32(b""), None);
    assert_eq!(parse_i32(b"-"), None);
    assert_eq!(parse_i32(b"+"), None);
    assert_eq!(parse_i32(b"12a"), None);
    assert_eq!(parse_i32(b" 12"), None);
    assert_eq!(parse_i32(b"1 2"), None);
}

#[test]
fn i32_renders_as_to_string_does() {
    assert_eq!(i32_to_dec(0), b"0".to_vec());
    assert_eq!(i32_to_dec(85), b"85".to_vec());
    assert_eq!(i32_to_dec(-15), b"-15".to_vec());
    assert_eq!(i32_to_dec(i32::MAX), b"2147483647".to_vec());
    assert_eq!(i32_to_dec(i32::MIN), b"-2147483648".to_vec());
}

#[test]
fn configuration_defaults_hold_without_layers() {
    let cfg = resolve_config(Vec::new());
    assert_eq!(cfg.tempo, -15);
    assert_eq!(cfg.input_file, b"in.wav".to_vec());
    assert_eq!(cfg.output_file, b"out.wav".to_vec());
}

#[test]
fn later_layers_win_field_by_field() {
    let env = ConfigLayer {
        tempo: Some(5),
        input_file: Some(b"env.wav".to_vec()),
        output_file: None,
    };
    let file = ConfigLayer {
        tempo: None,
        input_file: Some(b"file.wav".to_vec()),
        output_file: Some(b"file-out.wav".to_vec()),
    };
    let cli = ConfigLayer {
        tempo: Some(-30),
        input_file: None,
        output_file: None,
    };
    let cfg = resolve_config(vec![env, file, cli]);
    assert_eq!(cfg.tempo, -30);
    assert_eq!(cfg.input_file, b"file.wav".to_vec());
    assert_eq!(cfg.output_file, b"file-out.wav".to_vec());
}
