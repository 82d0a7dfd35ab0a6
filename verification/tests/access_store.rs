use web_access::access_store::{load, save, temp_file_name, PersistedAccess, SaveStep, FILENAME};
use web_access::devices::DeviceEntry;

/// Read a stored file's text: nothing unless it is a JSON object with a pairing token.
fn parse(text: Option<&str>) -> Option<PersistedAccess> {
    let value: serde_json::Value = serde_json::from_str(text?).ok()?;
    let text_at = |v: &serde_json::Value, key: &str| v[key].as_str().unwrap_or("").to_string();
    let list = |key: &str| value[key].as_array().cloned().unwrap_or_default();
    Some(PersistedAccess {
        pairing_token: value.get("pairingToken")?.as_str()?.to_string(),
        blocked_devices: list("blockedDevices")
            .iter()
            .map(|v| v.as_str().unwrap_or("").to_string())
            .collect(),
        devices: list("devices")
            .iter()
            .map(|v| DeviceEntry {
                device_id: text_at(v, "deviceId"),
                name: text_at(v, "name"),
                first_seen_at: v["firstSeenAt"].as_u64().unwrap_or(0),
                last_seen_at: v["lastSeenAt"].as_u64().unwrap_or(0),
            })
            .collect(),
    })
}

/// The JSON text of pairing state.
fn text_of(access: &PersistedAccess) -> String {
    let devices: Vec<serde_json::Value> = access
        .devices
        .iter()
        .map(|d| {
            let mut m = serde_json::Map::new();
            m.insert("deviceId".into(), d.device_id.clone().into());
            m.insert("name".into(), d.name.clone().into());
            m.insert("firstSeenAt".into(), d.first_seen_at.into());
            m.insert("lastSeenAt".into(), d.last_seen_at.into());
            m.into()
        })
        .collect();
    let mut m = serde_json::Map::new();
    m.insert("pairingToken".into(), access.pairing_token.clone().into());
    m.insert("blockedDevices".into(), access.blocked_devices.clone().into());
    m.insert("devices".into(), devices.into());
    serde_json::Value::from(m).to_string()
}

/// A data directory in memory.
#[derive(Default)]
struct Directory {
    target: Option<String>,
    tmp: Option<String>,
}

impl Directory {
    /// Store pairing state; the step at `fails`, if any, comes out as a failure.
    fn store(&mut self, access: &PersistedAccess, fails: Option<usize>) -> Result<(), String> {
        let mut json = String::new();
        let mut step = SaveStep::Serialize;
        let mut n = 0;
        loop {
            let ok = fails != Some(n);
            match step {
                SaveStep::Serialize if ok => json = text_of(access),
                SaveStep::WriteTemp if ok => self.tmp = Some(json.clone()),
                SaveStep::WriteTemp => self.tmp = Some(json[..1].to_string()),
                SaveStep::Replace if ok => self.target = self.tmp.take(),
                SaveStep::Finished(result) => return result,
                _ => {}
            }
            step = save(step, if ok { Ok(()) } else { Err("no".to_string()) });
            n += 1;
        }
    }

    fn load(&self) -> Option<PersistedAccess> {
        load(parse(self.target.as_deref()))
    }
}

fn with_token(token: &str) -> PersistedAccess {
    PersistedAccess {
        pairing_token: token.into(),
        blocked_devices: Vec::new(),
        devices: Vec::new(),
    }
}

#[test]
fn save_load_roundtrip() {
    let access = PersistedAccess {
        pairing_token: "tok-123".into(),
        blocked_devices: vec!["bad-device".into()],
        devices: vec![DeviceEntry {
            device_id: "dev-a".into(),
            name: "Phone".into(),
            first_seen_at: 1,
            last_seen_at: 2,
        }],
    };
    let mut dir = Directory::default();
    dir.store(&access, None).unwrap();
    let loaded = dir.load().expect("saved state should load");
    assert_eq!(loaded.pairing_token, "tok-123");
    assert_eq!(loaded.blocked_devices, vec!["bad-device".to_string()]);
    assert_eq!(loaded.devices.len(), 1);
    assert_eq!(loaded.devices[0].device_id, "dev-a");
}

#[test]
fn failed_saves_leave_the_last_stored_state() {
    let mut dir = Directory::default();
    assert!(dir.store(&with_token("none"), Some(1)).is_err());
    assert!(dir.load().is_none());
    dir.store(&with_token("old"), None).unwrap();
    for step in 0..3 {
        assert!(dir.store(&with_token("new"), Some(step)).is_err());
        assert_eq!(dir.load().unwrap().pairing_token, "old");
    }
    dir.store(&with_token("new"), None).unwrap();
    assert_eq!(dir.load().unwrap().pairing_token, "new");
    dir.store(&with_token("  "), None).unwrap();
    assert!(dir.load().is_none());
}

#[test]
fn missing_corrupt_or_empty_token_yields_none() {
    assert!(load(parse(None)).is_none());
    assert!(load(parse(Some("{not json"))).is_none());
    assert!(load(parse(Some(r#"{"pairingToken":"  "}"#))).is_none());
    assert!(load(parse(Some(r#"{"pairingToken":" t"}"#))).is_some());
}

#[test]
fn blank_covers_all_unicode_white_space() {
    for c in [
        '\t', '\n', '\u{b}', '\u{c}', '\r', ' ', '\u{85}', '\u{a0}', '\u{1680}', '\u{2000}',
        '\u{2005}', '\u{200a}', '\u{2028}', '\u{2029}', '\u{202f}', '\u{205f}', '\u{3000}',
    ] {
        assert!(c.is_whitespace());
        let stored = |token: String| {
            load(Some(PersistedAccess {
                pairing_token: token,
                blocked_devices: Vec::new(),
                devices: Vec::new(),
            }))
        };
        assert!(stored(format!("{c}{c}")).is_none());
        assert!(stored(format!("{c}x{c}")).is_some());
    }
    for n in 0..0x11_0000u32 {
        if let Some(c) = char::from_u32(n) {
            let listed = (0x9..=0xd).contains(&n)
                || (0x2000..=0x200a).contains(&n)
                || [0x20, 0x85, 0xa0, 0x1680, 0x2028, 0x2029, 0x202f, 0x205f, 0x3000].contains(&n);
            assert_eq!(c.is_whitespace(), listed);
        }
    }
}

#[test]
fn file_names() {
    assert_eq!(FILENAME, "vlx-web-access.json");
    assert_eq!(temp_file_name(), "vlx-web-access.json.tmp");
}

#[test]
fn storing_goes_through_its_steps_in_order() {
    let step = save(SaveStep::Serialize, Ok(()));
    assert!(matches!(step, SaveStep::WriteTemp));
    let step = save(step, Ok(()));
    assert!(matches!(step, SaveStep::Replace));
    let step = save(step, Ok(()));
    assert!(matches!(step, SaveStep::Finished(Ok(()))));
    assert!(matches!(save(step, Err("late".to_string())), SaveStep::Finished(Ok(()))));
}

#[test]
fn each_failed_step_is_reported() {
    let cases = [
        (SaveStep::Serialize, "failed to serialize remote-access state: no"),
        (SaveStep::WriteTemp, "failed to write remote-access state: no"),
        (SaveStep::Replace, "failed to persist remote-access state: no"),
    ];
    for (step, text) in cases {
        match save(step, Err("no".to_string())) {
            SaveStep::Finished(Err(e)) => assert_eq!(e, text),
            _ => panic!("a failure ends the sequence"),
        }
    }
}
