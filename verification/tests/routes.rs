use kibbled::ai::EventFileError;
use kibbled::audioout::PlaybackStats;
use kibbled::bus::FeedCtrl;
use kibbled::faces::store::UploadedSample;
use kibbled::faces::{FaceError, FaceTarget, Guess, PendingCrop, Sample, UploadError};
use kibbled::health::Health;
use kibbled::http::Response;
use kibbled::persist::WriteError;
use kibbled::routes::bodies::{
    audio_status_json, audio_written_json, bus_error, cat_added_json, cat_error, clip_playing_json,
    clip_saved_json, config_written_json, event_error, faces_current_info_json, faces_pending_json,
    faces_samples_json, fed_json, identify_json, json_response, label_error, labelled_identity_json,
    labelled_json, nothing_to_identify_json, sample_error, schedule_result, speak_json, state_json,
    upload_error, uploaded_json, write_error, Verdict,
};
use kibbled::routes::requests::{
    ble_advertise_write, config_write, events_stream, feed, feed_cancel, name_and_cat, pcm_from_body,
    post_schedule_entry_enabled, required_flag, upload_cat, wifi_connect,
};
use kibbled::routes::{route, Route};
use kibbled::schedule::Error;

#[test]
fn every_plain_route_is_found() {
    let cases = [
        ("GET", "/state", Route::State),
        ("GET", "/config", Route::Config),
        ("POST", "/config", Route::ConfigWrite),
        ("POST", "/feed", Route::Feed),
        ("POST", "/feed/cancel", Route::FeedCancel),
        ("GET", "/streams", Route::Streams),
        ("GET", "/cloud", Route::Cloud),
        ("POST", "/cloud", Route::CloudWrite),
        ("GET", "/schedule", Route::Schedule),
        ("PUT", "/schedule", Route::ScheduleReplace),
        ("POST", "/schedule/entry", Route::ScheduleAdd),
        ("DELETE", "/schedule/entry", Route::ScheduleRemove),
        ("POST", "/schedule/entry/enabled", Route::ScheduleSetEnabled),
        ("GET", "/events", Route::Events),
        ("GET", "/events/stream", Route::EventsStream),
        ("GET", "/faces/pending", Route::PendingFaces),
        ("POST", "/faces/label", Route::FaceLabel),
        ("POST", "/faces/unlabel", Route::FaceUnlabel),
        ("GET", "/faces/current", Route::FaceCurrent),
        ("GET", "/faces/current/info", Route::FaceCurrentInfo),
        ("POST", "/faces/upload", Route::FaceUpload),
        ("DELETE", "/faces/samples/Rashy", Route::NotFound),
        ("GET", "/cats", Route::Cats),
        ("POST", "/cats", Route::CatAdd),
        ("GET", "/identify", Route::Identify),
        ("GET", "/feeds", Route::Feeds),
        ("GET", "/ble", Route::Ble),
        ("POST", "/ble/advertise", Route::BleAdvertise),
        ("GET", "/wifi", Route::Wifi),
        ("GET", "/wifi/scan", Route::WifiScan),
        ("POST", "/wifi/connect", Route::WifiConnect),
        ("POST", "/wifi/forget", Route::WifiForget),
        ("GET", "/audio", Route::Audio),
        ("POST", "/audio", Route::AudioWrite),
        ("POST", "/speak", Route::Speak),
        ("GET", "/clips", Route::Clips),
        ("DELETE", "/state", Route::NotFound),
        ("GET", "/nope", Route::NotFound),
        ("get", "/state", Route::NotFound),
    ];
    for (method, path, want) in cases {
        assert_eq!(route(method, path), want, "{method} {path}");
    }
}

#[test]
fn routes_below_a_path_carry_the_rest() {
    assert_eq!(route("GET", "/events/1-visit.jpg"), Route::EventFile("1-visit.jpg".into()));
    assert_eq!(route("GET", "/faces/pending/1.jpg"), Route::PendingFace("1.jpg".into()));
    assert_eq!(route("GET", "/faces/samples/Rashy"), Route::Samples("Rashy".into()));
    assert_eq!(route("GET", "/faces/samples/Rashy/1.jpg"), Route::Sample("Rashy".into(), "1.jpg".into()));
    assert_eq!(
        route("DELETE", "/faces/samples/Rashy/1.jpg"),
        Route::SampleDelete("Rashy".into(), "1.jpg".into())
    );
    assert_eq!(route("DELETE", "/cats/Rashy"), Route::CatDelete("Rashy".into()));
    assert_eq!(route("GET", "/feeds/a-before.h264"), Route::FeedFile("a-before.h264".into()));
}

#[test]
fn clips_are_routed_by_method() {
    assert_eq!(route("PUT", "/clips/a"), Route::ClipPut("a".into()));
    assert_eq!(route("GET", "/clips/a"), Route::ClipGet("a".into()));
    assert_eq!(route("DELETE", "/clips/a"), Route::ClipDelete("a".into()));
    assert_eq!(route("POST", "/clips/a/play"), Route::ClipPlay("a".into()));
    assert_eq!(route("POST", "/clips/a"), Route::NotFound);
    assert_eq!(route("GET", "/clips/a/play"), Route::NotFound);
    assert_eq!(route("GET", "/clips/.."), Route::ClipInvalid);
    assert_eq!(route("POST", "/clips/a/b/play"), Route::ClipInvalid);
}

#[test]
fn a_feed_names_its_portions_and_hoppers() {
    let f = feed(r#"{"amount":3}"#, 77).unwrap();
    assert_eq!((f.cancel, f.id.as_str(), f.amount1, f.amount2), (false, "kibble-77", 3, 0));
    let f = feed(r#"{"amount":20,"hopper":"2","id":"x"}"#, 77).unwrap();
    assert_eq!((f.id.as_str(), f.amount1, f.amount2), ("x", 0, 20));
    let f = feed(r#"{"amount":1,"hopper":"both","id":""}"#, 77).unwrap();
    assert_eq!((f.id.as_str(), f.amount1, f.amount2), ("kibble-77", 1, 1));
    for bad in [r#"{}"#, r#"{"amount":0}"#, r#"{"amount":21}"#, r#"{"amount":"x"}"#] {
        assert_eq!(feed(bad, 0).err().unwrap(), "amount must be 1..=20 portions");
    }
    assert_eq!(feed(r#"{"amount":1,"hopper":3}"#, 0).err().unwrap(), r#"hopper must be 1, 2 or "both""#);
    let c = feed_cancel();
    assert!(c.cancel && c.id.is_empty() && c.amount1 == 0 && c.amount2 == 0);
}

#[test]
fn settings_need_a_key_and_a_value() {
    assert_eq!(config_write(r#"{"key":"volume","value":5}"#), Ok(("volume".to_string(), 5)));
    assert_eq!(config_write(r#"{"key":"","value":5}"#), Err("\"key\" is required".to_string()));
    assert_eq!(
        config_write(r#"{"key":"volume","value":-5}"#),
        Err("\"value\" must be a non-negative integer".to_string())
    );
}

#[test]
fn flags_and_names_are_required() {
    assert_eq!(required_flag(r#"{"enabled":false}"#, "enabled"), Ok(false));
    assert_eq!(required_flag(r#"{"enabled":1}"#, "enabled"), Ok(true));
    assert_eq!(required_flag("{}", "enabled"), Err("\"enabled\" is required".to_string()));
    assert_eq!(ble_advertise_write(r#"{"on":true,"seconds":60}"#), Ok((true, Some(60))));
    assert_eq!(ble_advertise_write(r#"{"on":true,"seconds":"x"}"#), Ok((true, None)));
    assert_eq!(ble_advertise_write("{}"), Err("\"on\" is required".to_string()));
    assert_eq!(
        wifi_connect(r#"{"ssid":"home","psk":""}"#),
        Ok(("home".to_string(), None))
    );
    assert_eq!(
        wifi_connect(r#"{"ssid":"home","psk":"pw"}"#),
        Ok(("home".to_string(), Some("pw".to_string())))
    );
    assert_eq!(wifi_connect("{}"), Err("\"ssid\" is required".to_string()));
    assert_eq!(
        name_and_cat(r#"{"name":"1.jpg","cat":"Rashy"}"#),
        Ok(("1.jpg".to_string(), "Rashy".to_string()))
    );
    assert_eq!(name_and_cat("{}"), Err("\"name\" is required".to_string()));
    assert_eq!(name_and_cat(r#"{"name":"1.jpg"}"#), Err("\"cat\" is required".to_string()));
    assert_eq!(
        post_schedule_entry_enabled(r#"{"id":"a","enabled":false}"#),
        Ok(("a".to_string(), false))
    );
    assert_eq!(post_schedule_entry_enabled("{}"), Err("missing \"id\""));
    assert_eq!(post_schedule_entry_enabled(r#"{"id":"a"}"#), Err("missing \"enabled\""));
    assert_eq!(events_stream("since=12"), 12);
    assert_eq!(events_stream("since=x"), 0);
    assert_eq!(events_stream(""), 0);
}

#[test]
fn samples_are_read_from_pairs_of_bytes() {
    assert_eq!(pcm_from_body(&[1, 0, 255, 255, 0, 128]), Ok(vec![1, -1, -32768]));
    assert_eq!(
        pcm_from_body(&[]),
        Err("body is empty; expected raw 16-bit/16kHz/mono PCM".to_string())
    );
    assert_eq!(
        pcm_from_body(&[1]),
        Err("body length must be a multiple of 2 (16-bit samples)".to_string())
    );
}

#[test]
fn the_state_ends_with_the_process() {
    let health = Health { start_count: 3, last_start_unix: 99 };
    assert_eq!(
        state_json(r#"{"feeding":false}"#, &health, Some(-9)),
        r#"{"feeding":false,"kibbled_start_count":3,"kibbled_last_start_unix":99,"kibbled_last_exit_code":-9}"#
    );
    assert!(state_json("{}", &health, None).ends_with(r#""kibbled_last_exit_code":null}"#));
}

#[test]
fn audio_is_reported() {
    assert_eq!(audio_status_json(false, None), r#"{"enabled":false,"last_session":null}"#);
    let s = PlaybackStats::default();
    assert_eq!(
        audio_status_json(true, Some(s)),
        format!(r#"{{"enabled":true,"last_session":{}}}"#, s.to_json())
    );
    assert_eq!(audio_written_json(true), r#"{"enabled":true}"#);
    assert_eq!(speak_json(16_000), r#"{"ok":true,"samples":16000,"estimated_ms":1000}"#);
    assert_eq!(clip_saved_json("a", 7), r#"{"ok":true,"name":"a","bytes":7}"#);
    assert_eq!(clip_playing_json(23), r#"{"ok":true,"frames":23}"#);
}

fn status(r: Response) -> (u16, String) {
    let (code, _, body) = r.into_parts();
    (code, String::from_utf8(body).unwrap())
}

#[test]
fn errors_have_their_codes() {
    assert_eq!(status(json_response(Ok("[]".into()))), (200, "[]".to_string()));
    assert_eq!(status(json_response(Err("x".into()))).0, 500);
    assert_eq!(status(event_error(&EventFileError::InvalidName)).0, 400);
    assert_eq!(status(event_error(&EventFileError::NotFound)).0, 404);
    assert_eq!(status(event_error(&EventFileError::Io("x".into()))).0, 500);
    assert_eq!(
        status(sample_error(&FaceError::InvalidCat("x".into()))),
        (400, r#"{"error":"invalid cat"}"#.to_string())
    );
    assert_eq!(status(sample_error(&FaceError::InvalidName)).0, 400);
    assert_eq!(status(sample_error(&FaceError::NotFound)).0, 404);
    assert_eq!(status(sample_error(&FaceError::Io("x".into()))).0, 500);
    assert_eq!(
        status(label_error(&FaceError::InvalidName)),
        (400, r#"{"error":"invalid file name"}"#.to_string())
    );
    assert_eq!(status(label_error(&FaceError::InvalidCat("x".into()))).0, 400);
    assert_eq!(status(label_error(&FaceError::NotFound)).0, 404);
    assert_eq!(status(label_error(&FaceError::InvalidUpload(UploadError::NotJpeg))).0, 500);
    assert_eq!(status(upload_error(&FaceError::InvalidUpload(UploadError::NotJpeg))).0, 400);
    assert_eq!(status(upload_error(&FaceError::NotFound)).0, 404);
    assert_eq!(status(cat_error(&FaceError::InvalidCat("x".into()))).0, 400);
    assert_eq!(status(cat_error(&FaceError::NotFound)).0, 500);
    assert_eq!(status(write_error(&WriteError::UnknownKey)).0, 404);
    assert_eq!(status(write_error(&WriteError::NotWritable)).0, 400);
    assert_eq!(status(write_error(&WriteError::Io("x".into()))).0, 500);
    assert_eq!(status(schedule_result(Ok(()), "{}".into())), (200, "{}".to_string()));
    assert_eq!(status(schedule_result(Err(Error::Invalid("x".into())), "{}".into())).0, 400);
    assert_eq!(status(schedule_result(Err(Error::Internal("x".into())), "{}".into())).0, 500);
    assert_eq!(bus_error("gone"), "bus send failed: gone");
}

#[test]
fn confirmations_repeat_what_was_asked() {
    assert_eq!(
        config_written_json("volume", 5, Some(true)),
        r#"{"ok":true,"key":"volume","value":5,"notified":true}"#
    );
    assert!(config_written_json("volume", 5, None).ends_with(r#""notified":null}"#));
    let f = FeedCtrl { cancel: false, id: "a\"b".into(), amount1: 1, amount2: 2 };
    assert_eq!(fed_json(&f), r#"{"ok":true,"id":"a\"b","amount1":1,"amount2":2,"cancel":false}"#);
    assert_eq!(labelled_json("1.jpg", "Rashy"), r#"{"ok":true,"name":"1.jpg","cat":"Rashy"}"#);
    let u = UploadedSample { name: "upload-1.jpg".into(), samples: 3, low_quality: true };
    assert_eq!(
        uploaded_json(&u),
        r#"{"ok":true,"name":"upload-1.jpg","samples":3,"low_quality":true}"#
    );
    assert_eq!(upload_cat("cat=Rashy"), "Rashy");
    assert_eq!(upload_cat(""), "");
    assert_eq!(cat_added_json("Rashy"), r#"{"ok":true,"name":"Rashy"}"#);
}

fn guess(cat: &str, score: &str) -> Guess {
    Guess { cat: cat.to_string(), score: score.to_string() }
}

#[test]
fn faces_are_reported() {
    let crops = vec![
        PendingCrop { name: "1-7.jpg".into(), ts: 1, vendor_pet_id: Some(7), guess: Some(guess("Rashy", "0.5")) },
        PendingCrop { name: "2-unknown.jpg".into(), ts: 2, vendor_pet_id: None, guess: None },
    ];
    assert_eq!(
        faces_pending_json(&crops),
        r#"[{"name":"1-7.jpg","ts":1,"vendor_pet_id":7,"guess":{"cat":"Rashy","score":0.5}},{"name":"2-unknown.jpg","ts":2,"vendor_pet_id":null,"guess":null}]"#
    );
    let samples = vec![Sample { name: "1-7.jpg".into(), ts: 1 }];
    assert_eq!(faces_samples_json(&samples), r#"[{"name":"1-7.jpg","ts":1}]"#);
    assert_eq!(
        faces_current_info_json(None),
        r#"{"status":"none","name":null,"cat":null}"#
    );
    assert_eq!(
        faces_current_info_json(Some(&FaceTarget::Pending { name: "1.jpg".into() })),
        r#"{"status":"pending","name":"1.jpg","cat":null}"#
    );
    assert_eq!(
        faces_current_info_json(Some(&FaceTarget::Labelled { cat: "Rashy".into(), name: "1.jpg".into() })),
        r#"{"status":"labelled","name":"1.jpg","cat":"Rashy"}"#
    );
}

#[test]
fn identities_are_reported() {
    assert_eq!(
        nothing_to_identify_json(),
        r#"{"cat":null,"score":null,"second_best":null,"crop":null,"source":null,"ts":null}"#
    );
    assert_eq!(
        labelled_identity_json("Rashy", "1.jpg", Some(5)),
        r#"{"cat":"Rashy","score":null,"second_best":null,"crop":"1.jpg","source":"labelled","ts":5}"#
    );
    let known = Verdict::Known { best: guess("Rashy", "0.9"), second_best: Some(guess("Ghost", "0.2")) };
    assert_eq!(
        identify_json(&known, "1.jpg", None),
        r#"{"cat":"Rashy","score":0.9,"second_best":{"cat":"Ghost","score":0.2},"crop":"1.jpg","source":"classifier","ts":null}"#
    );
    assert_eq!(
        identify_json(&Verdict::Unknown, "1.jpg", Some(5)),
        r#"{"cat":"unknown","score":null,"second_best":null,"crop":"1.jpg","source":"classifier","ts":5}"#
    );
}
