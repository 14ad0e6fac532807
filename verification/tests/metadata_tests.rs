use base64::Engine;
use mymediatrail::metadata::{
    encode_thumbnail, ffprobe_args, resolution_text, summarize_probe, thumbnail_args, thumbnail_file_name,
    FfprobeFormat, FfprobeOutput, FfprobeStream,
};

fn stream(kind: Option<&str>, codec: Option<&str>, w: Option<u32>, h: Option<u32>) -> FfprobeStream {
    FfprobeStream {
        codec_type: kind.map(|s| s.to_string()),
        codec_name: codec.map(|s| s.to_string()),
        width: w,
        height: h,
    }
}

#[test]
fn summary_takes_first_video_stream() {
    let p = FfprobeOutput {
        format: Some(FfprobeFormat { duration: Some("12.5".to_string()) }),
        streams: Some(vec![
            stream(Some("audio"), Some("aac"), None, None),
            stream(Some("video"), Some("h264"), Some(1920), Some(1080)),
            stream(Some("video"), Some("hevc"), Some(640), Some(480)),
        ]),
    };
    let s = summarize_probe(&p);
    assert_eq!(s.duration_text.as_deref(), Some("12.5"));
    assert_eq!(s.codec_text.as_deref(), Some("h264"));
    assert_eq!(s.resolution_text.as_deref(), Some("1920x1080"));
}

#[test]
fn summary_without_video() {
    let p = FfprobeOutput {
        format: None,
        streams: Some(vec![stream(Some("audio"), Some("mp3"), None, None), stream(None, Some("x"), Some(1), Some(1))]),
    };
    let s = summarize_probe(&p);
    assert!(s.duration_text.is_none());
    assert!(s.codec_text.is_none());
    assert!(s.resolution_text.is_none());
}

#[test]
fn summary_video_without_size() {
    let p = FfprobeOutput {
        format: Some(FfprobeFormat { duration: None }),
        streams: Some(vec![stream(Some("video"), None, Some(320), None)]),
    };
    let s = summarize_probe(&p);
    assert!(s.codec_text.is_none());
    assert!(s.resolution_text.is_none());
}

#[test]
fn resolution_format() {
    assert_eq!(resolution_text(320, 180), format!("{}x{}", 320, 180));
    assert_eq!(resolution_text(0, 7), "0x7");
}

#[test]
fn thumbnail_name() {
    assert_eq!(thumbnail_file_name("abc-123"), "abc-123.jpg");
}

#[test]
fn command_arguments() {
    assert_eq!(
        ffprobe_args("/v/a.mkv"),
        vec!["-v", "quiet", "-print_format", "json", "-show_format", "-show_streams", "/v/a.mkv"]
    );
    assert_eq!(
        thumbnail_args("/v/a.mkv", "/t/x.jpg", true),
        vec!["-y", "-ss", "00:00:05", "-i", "/v/a.mkv", "-vframes", "1", "-s", "320x180", "-f", "image2", "/t/x.jpg"]
    );
    assert_eq!(thumbnail_args("/v/a.mkv", "/t/x.jpg", false)[2], "00:00:00");
}

#[test]
fn thumbnail_base64() {
    assert_eq!(encode_thumbnail(b""), "");
    assert_eq!(encode_thumbnail(b"f"), "Zg==");
    assert_eq!(encode_thumbnail(b"fo"), "Zm8=");
    assert_eq!(encode_thumbnail(b"foo"), "Zm9v");
    assert_eq!(encode_thumbnail(b"hello world~"), "aGVsbG8gd29ybGR+");
    assert_eq!(encode_thumbnail(&[0xff, 0xfe, 0xfd]), "//79");
    assert_eq!(encode_thumbnail(b"foobar").len(), 8);
}

#[test]
fn thumbnail_base64_distinguishes_images() {
    let samples: [&[u8]; 7] = [b"", b"a", b"a\0", b"a\0\0", b"b", b"ab", &[0, 0, 0]];
    for (i, x) in samples.iter().enumerate() {
        for (j, y) in samples.iter().enumerate() {
            assert_eq!(encode_thumbnail(x) == encode_thumbnail(y), i == j);
        }
    }
}

#[test]
fn thumbnail_base64_decodes_to_the_image() {
    let images: [&[u8]; 6] = [b"", b"\x00", b"\xff\x10", b"JFIF", &[0xff, 0xd8, 0xff, 0xe0, 0x00, 0x10, 0x4a], &[7u8; 300]];
    for image in images {
        let text = encode_thumbnail(image);
        let back = base64::engine::general_purpose::STANDARD.decode(&text).unwrap();
        assert_eq!(back, image);
    }
}
