use regolith::moonbase::hashed_fn;
use regolith::moonbase::to_moonbase_str;
use regolith::moonbase::MoonbaseNote;
use regolith::types::ToneId;

#[test]
fn filename_hashing() {
    assert_eq!(
        hashed_fn("ewjwef", "wav", "/tmp/"),
        "/tmp/fc0d3155c1b5099b40038d39cc71963e.wav"
    );

    assert_eq!(hashed_fn("", "jpg", "/tmp/"), "/tmp/d41d8cd98f00b204e9800998ecf8427e.jpg");

    assert_eq!(
        hashed_fn("[duw<40,19>]", "mp3", "/tmp/"),
        "/tmp/a85cb3b84d6813ab169ddca8a03be747.mp3"
    );
}

#[test]
fn moonbase_strings() {
    assert_eq!(
        "[duw<40,19>]",
        to_moonbase_str(&MoonbaseNote {
            prefix: "duw".to_string(),
            suffix: "".to_string(),
            dur_ms: 40,
            tone_id: ToneId(19)
        })
    );

    assert_eq!(
        "[du<53,10>th]",
        to_moonbase_str(&MoonbaseNote {
            prefix: "du".to_string(),
            suffix: "th".to_string(),
            dur_ms: 120,
            tone_id: ToneId(10)
        })
    );

    assert_eq!(
        "[uh<26,28>wf]",
        to_moonbase_str(&MoonbaseNote {
            prefix: "uh".to_string(),
            suffix: "wf".to_string(),
            dur_ms: 93,
            tone_id: ToneId(28)
        })
    );
}
