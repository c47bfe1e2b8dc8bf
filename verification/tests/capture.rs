//! Encoders and pipelines.

use desk_agent::capture::{
    audio_description, bounded_bitrate, candidates, probe_result, Encoder, EncoderChoice, ProbeEnd,
    Selection, MAX_BITRATE_KBPS, MIN_BITRATE_KBPS,
};

#[test]
fn encoders_are_probed_in_order() {
    let mut probes: Vec<Result<(), String>> = Vec::new();
    assert!(matches!(
        Encoder::select(EncoderChoice::Auto, &probes),
        Selection::Probe(Encoder::Nvenc)
    ));
    probes.push(Err("no GPU".into()));
    assert!(matches!(
        Encoder::select(EncoderChoice::Auto, &probes),
        Selection::Probe(Encoder::Vaapi)
    ));
    probes.push(Ok(()));
    assert!(matches!(
        Encoder::select(EncoderChoice::Auto, &probes),
        Selection::Found(Encoder::Vaapi)
    ));
    probes[1] = Err("no device".into());
    probes.push(Err("timed out".into()));
    match Encoder::select(EncoderChoice::Auto, &probes) {
        Selection::Failed(text) => assert_eq!(
            text,
            "no usable H.264 encoder found:\n  NVIDIA NVENC (nvh264enc): no GPU\n  \
             VA-API (vah264enc): no device\n  software x264 (x264enc): timed out"
        ),
        _ => panic!("found one"),
    }
}

#[test]
fn a_named_encoder_has_no_alternative() {
    for (choice, encoder) in [
        (EncoderChoice::Nvenc, Encoder::Nvenc),
        (EncoderChoice::Vaapi, Encoder::Vaapi),
        (EncoderChoice::X264, Encoder::X264),
    ] {
        assert_eq!(candidates(choice), vec![encoder]);
    }
    match Encoder::select(EncoderChoice::X264, &vec![Err("gone".into())]) {
        Selection::Failed(text) => {
            assert_eq!(text, "no usable H.264 encoder found:\n  software x264 (x264enc): gone")
        }
        _ => panic!("found one"),
    }
    assert_eq!(EncoderChoice::default(), EncoderChoice::Auto);
}

#[test]
fn pipelines_are_described() {
    assert_eq!(
        Encoder::Nvenc.fragment(8000),
        "nvh264enc name=enc preset=p1 tune=ultra-low-latency rc-mode=cbr zerolatency=true \
         bframes=0 gop-size=-1 bitrate=8000 aud=false"
    );
    assert_eq!(
        Encoder::Vaapi.probe_description(),
        "videotestsrc num-buffers=5 ! video/x-raw,format=BGRx,width=1280,height=720,framerate=30/1 \
         ! videoconvert ! video/x-raw,format=NV12 ! vah264enc name=enc rate-control=cbr \
         bitrate=8000 b-frames=0 target-usage=7 \
         ! video/x-h264,profile=constrained-baseline,stream-format=byte-stream,alignment=au \
         ! h264parse ! fakesink"
    );
    assert_eq!(
        Encoder::X264.capture_description(11, 42),
        "pipewiresrc fd=11 path=42 do-timestamp=true keepalive-time=100 \
         ! video/x-raw,format=BGRx,max-framerate=60/1 ! queue max-size-buffers=1 leaky=downstream \
         ! videoconvert ! video/x-raw,format=I420 ! x264enc name=enc tune=zerolatency \
         speed-preset=ultrafast bitrate=8000 bframes=0 key-int-max=600 sliced-threads=true \
         ! video/x-h264,profile=constrained-baseline,stream-format=byte-stream,alignment=au \
         ! h264parse config-interval=-1 \
         ! appsink name=sink sync=false max-buffers=1 drop=true emit-signals=false"
    );
    assert!(audio_description().contains("opusenc frame-size=10 bitrate=128000"));
    assert_eq!(Encoder::X264.element(), "x264enc");
}

#[test]
fn bitrates_are_bounded() {
    assert_eq!(bounded_bitrate(0), MIN_BITRATE_KBPS);
    assert_eq!(bounded_bitrate(5_000), 5_000);
    assert_eq!(bounded_bitrate(u32::MAX), MAX_BITRATE_KBPS);
}

#[test]
fn probes_end_in_one_of_four_ways() {
    let end = |e| probe_result(Encoder::X264, e);
    assert_eq!(end(ProbeEnd::Finished), Ok(()));
    assert_eq!(
        end(ProbeEnd::NotInstalled),
        Err("GStreamer element x264enc is not installed".into())
    );
    assert_eq!(end(ProbeEnd::Broken("no caps".into())), Err("no caps".into()));
    assert_eq!(end(ProbeEnd::Silent), Err("timed out".into()));
}
