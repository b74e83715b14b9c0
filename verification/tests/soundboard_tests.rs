//! Soundboard helpers, sample-layout conversion and path classification.

use earpeace::audio_file::{is_opus_file, Mp3File};
use earpeace::converter::OpusFile;
use earpeace::dsp::SCALE;
use earpeace::soundboard::{needs_conversion, sound_data_uri, upload_plan, SoundAction};

#[test]
fn test_sound_data_uri_encodes_the_bytes() {
    // base64 of [1, 2, 3] is "AQID"
    let uri = sound_data_uri("audio/mp3", &vec![1u8, 2, 3]);
    assert_eq!(uri, "data:audio/mp3;base64,AQID");

    // padding: base64 of [255] is "/w=="
    let uri = sound_data_uri("audio/ogg", &vec![255u8]);
    assert_eq!(uri, "data:audio/ogg;base64,/w==");

    // empty payload: empty encoding
    let uri = sound_data_uri("audio/mp3", &Vec::new());
    assert_eq!(uri, "data:audio/mp3;base64,");
}

#[test]
fn test_needs_conversion_only_for_ogg() {
    assert!(needs_conversion("audio/ogg"));
    assert!(!needs_conversion("audio/mp3"));
    assert!(!needs_conversion("audio/ogg2"));
    assert!(!needs_conversion(""));
}

#[test]
fn test_upload_plan_uploads_before_deleting() {
    // replacing an existing sound: upload first, delete only after
    let plan = upload_plan(true);
    assert_eq!(plan, vec![SoundAction::Create, SoundAction::DeleteOriginal]);

    // a new sound: upload only
    let plan = upload_plan(false);
    assert_eq!(plan, vec![SoundAction::Create]);
}

#[test]
fn test_is_opus_file_checks_the_extension() {
    assert!(is_opus_file("sound.ogg"));
    assert!(is_opus_file("dir/subdir/sound.ogg"));
    assert!(is_opus_file("a.b.ogg"));
    assert!(!is_opus_file("sound.mp3"));
    assert!(!is_opus_file("sound.OGG"));
    assert!(!is_opus_file(".ogg"));
    assert!(!is_opus_file("dir/.ogg"));
    assert!(!is_opus_file("ogg"));
    assert!(!is_opus_file(""));
}

#[test]
fn test_convert_samples_to_i16_scales_and_clamps() {
    let buf: Vec<i64> = vec![0, SCALE, -SCALE, SCALE / 2, 2 * SCALE, -2 * SCALE];
    let out = Mp3File::convert_samples_to_i16(&buf);
    assert_eq!(out, vec![0, 32767, -32767, 16383, 32767, -32768]);
}

#[test]
fn test_split_channels_deinterleaves_stereo() {
    let samples: Vec<i16> = vec![1, -1, 2, -2, 3];
    let (left, right) = Mp3File::split_channels(&samples, 2);
    assert_eq!(left, vec![1, 2, 3]);
    // the odd trailing sample stands in for its missing pair
    assert_eq!(right, vec![-1, -2, 3]);

    let (left, right) = Mp3File::split_channels(&samples, 1);
    assert_eq!(left, samples);
    assert_eq!(right, samples);
}

#[test]
fn test_unit_constructors() {
    let _mp3 = Mp3File::new();
    let _opus = OpusFile::new();
    let _opus_default = OpusFile::default();
}
