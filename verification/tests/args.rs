use docker_mux::decoder_args;
use docker_mux::encoder_args::Args;
use docker_mux::encoder_args::ArgsError;

fn encoder_args() -> Args {
    Args {
        output: "-".to_owned(),
        stdin: None,
        stdout: None,
        stderr: None,
        frame_max: 200,
        frame_min: 0,
    }
}

#[test]
fn validate_requires_an_input() {
    let args = encoder_args();
    assert!(matches!(args.validate(), Err(ArgsError::NoInputSpecified)));
}

#[test]
fn validate_rejects_oversized_frames() {
    let mut args = encoder_args();
    args.stdout = Some("out.log".to_owned());
    args.frame_max = 5000;
    assert!(matches!(args.validate(), Err(ArgsError::FrameSizeExceeded(5000))));
}

#[test]
fn validate_normalizes_frame_min() {
    let mut args = encoder_args();
    args.stdin = Some("in.log".to_owned());

    let mut zero = args.clone();
    zero.frame_min = 0;
    assert_eq!(zero.validate().unwrap().frame_min, 200);

    let mut negative = args.clone();
    negative.frame_min = -10;
    assert_eq!(negative.validate().unwrap().frame_min, 190);

    let mut too_large = args.clone();
    too_large.frame_min = 300;
    assert_eq!(too_large.validate().unwrap().frame_min, 200);

    let mut in_range = args.clone();
    in_range.frame_min = 5;
    let validated = in_range.validate().unwrap();
    assert_eq!(validated.frame_min, 5);
    assert_eq!(validated.frame_max, 200);
}

#[test]
fn get_sources_walks_channels_in_tag_order() {
    let mut args = encoder_args();
    args.stdin = Some("a".to_owned());
    args.stderr = Some("c".to_owned());
    let mut it = args.get_sources();

    let first = it.next().unwrap();
    assert_eq!(first.stream_type, 0);
    assert_eq!(first.filename, "a");

    let second = it.next().unwrap();
    assert_eq!(second.stream_type, 2);
    assert_eq!(second.filename, "c");

    assert!(it.next().is_none());
    assert!(it.next().is_none());
}

#[test]
fn decoder_args_default_input() {
    let mut args = decoder_args::Args {
        files: Vec::new(),
        stdin: None,
        stdout: "-".to_owned(),
        stderr: None,
        fatal: false,
        silent: false,
    };
    args.apply_default_input();
    assert_eq!(args.files, vec!["-".to_owned()]);

    let mut named = decoder_args::Args {
        files: vec!["input.bin".to_owned()],
        stdin: None,
        stdout: "-".to_owned(),
        stderr: None,
        fatal: true,
        silent: true,
    };
    named.apply_default_input();
    assert_eq!(named.files, vec!["input.bin".to_owned()]);
}
