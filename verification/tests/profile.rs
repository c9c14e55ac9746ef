//! Headers of profile documents, and the generation watermark.

use vatis_profiles::fir::FirCode;
use vatis_profiles::{ProfileHeader, ID_REISSUE_SERIAL};

fn header(json: &str) -> ProfileHeader {
    let document: serde_json::Value = serde_json::from_str(json).unwrap();
    ProfileHeader {
        id: document["id"].as_str().unwrap().to_string(),
        name: document["name"].as_str().unwrap_or("").to_string(),
        update_url: document["updateUrl"].as_str().map(|url| url.to_string()),
        update_serial: document["updateSerial"].as_u64(),
    }
}

/// Each generation from the upstream history, by its real shape.
#[test]
fn generations_before_the_reissue_are_superseded() {
    // 2024-12: no updateUrl, no updateSerial, bare name.
    let ancient = header(r#"{"name":"LFBB","id":"9cf15495-c010-4a82-82d7-8687bdd7663f"}"#);
    assert!(ancient.is_superseded(FirCode::LFBB));

    // 2026-02-25: auto-update fields added, old id, bare name.
    let feb = header(
        r#"{"name":"LFBB","id":"149be2dc-b691-4950-9921-35027760dfcb",
            "updateUrl":"https://example/LFBB.json","updateSerial":2026022501}"#,
    );
    assert!(feb.is_superseded(FirCode::LFBB));

    // 2026-08-28: descriptive name, still the old id.
    let aug = header(
        r#"{"name":"LFBB Bordeaux FIR","id":"149be2dc-b691-4950-9921-35027760dfcb",
            "updateUrl":"https://example/LFBB.json","updateSerial":2026090301}"#,
    );
    assert!(aug.is_superseded(FirCode::LFBB));
}

#[test]
fn a_profile_at_the_watermark_is_left_alone() {
    let current = header(
        r#"{"name":"LFBB Bordeaux FIR","id":"47f4bce0-29f8-4f3f-ae20-a6255b861f88",
            "updateUrl":"https://example/LFBB.json","updateSerial":2026090401}"#,
    );
    assert!(!current.is_superseded(FirCode::LFBB));
}

/// A later content release must not drag the profile back into scope: that refresh is
/// vATIS's job.
#[test]
fn a_profile_above_the_watermark_is_left_alone() {
    let later = header(
        r#"{"name":"LFBB Bordeaux FIR","id":"47f4bce0-29f8-4f3f-ae20-a6255b861f88",
            "updateSerial":2027010101}"#,
    );
    assert!(!later.is_superseded(FirCode::LFBB));
}

#[test]
fn a_missing_serial_counts_as_below_the_watermark() {
    let no_serial = header(r#"{"name":"LFBB Bordeaux FIR","id":"x"}"#);
    assert_eq!(no_serial.serial(), 0);
    assert!(no_serial.is_superseded(FirCode::LFBB));
}

#[test]
fn another_firs_profile_is_not_matched() {
    let lfmm = header(r#"{"name":"LFMM Marseille FIR","id":"x","updateSerial":2026042301}"#);
    assert!(!lfmm.is_superseded(FirCode::LFBB));
    assert!(lfmm.is_superseded(FirCode::LFMM));
}

#[test]
fn a_profile_naming_no_fir_is_never_matched() {
    let other = header(r#"{"name":"EDGG Langen","id":"x"}"#);
    for fir in FirCode::ALL {
        assert!(!other.is_superseded(fir), "matched {}", fir.as_str());
    }
}

#[test]
fn matching_is_case_insensitive() {
    let lower = header(r#"{"name":"lfbb bordeaux fir","id":"x"}"#);
    assert!(lower.is_superseded(FirCode::LFBB));
}

/// Profiles are megabytes of stations and presets; nothing here cares about any of it.
#[test]
fn unknown_fields_are_ignored() {
    let with_body = header(
        r#"{"name":"LFBB Bordeaux FIR","id":"x","updateSerial":2026090401,
            "stations":[{"id":"s","identifier":"LFBO"}],"version":4}"#,
    );
    assert_eq!(with_body.serial(), 2026090401);
}

#[test]
fn a_matching_profile_is_of_exactly_one_generation() {
    let below = header(r#"{"name":"LFEE","id":"x","updateSerial":2026090400}"#);
    let at = header(r#"{"name":"LFEE","id":"x","updateSerial":2026090401}"#);
    assert_eq!(ID_REISSUE_SERIAL, 2026090401);
    assert!(below.is_superseded(FirCode::LFEE) && !below.is_current(FirCode::LFEE));
    assert!(!at.is_superseded(FirCode::LFEE) && at.is_current(FirCode::LFEE));
    assert!(!at.is_superseded(FirCode::LFBB) && !at.is_current(FirCode::LFBB));
}

#[test]
fn a_code_is_found_wherever_it_stands_in_the_name() {
    for name in ["LFRR", "xLFRR", "LFRRx", "Brest (lFrR) FIR", "LFLFRR"] {
        let profile = header(&format!(r#"{{"name":"{name}","id":"x"}}"#));
        assert!(profile.matches_fir(FirCode::LFRR), "{name}");
    }
    for name in ["", "LFR", "LFR R", "FRR", "LFRƦ"] {
        let profile = header(&format!(r#"{{"name":"{name}","id":"x"}}"#));
        assert!(!profile.matches_fir(FirCode::LFRR), "{name}");
    }
}

#[test]
fn neither_the_id_nor_the_address_decides() {
    let one = header(r#"{"name":"LFMM","id":"LFBB","updateSerial":2026090401}"#);
    let two = header(
        r#"{"name":"LFMM","id":"y","updateUrl":"https://x/LFBB","updateSerial":2026090401}"#,
    );
    for fir in FirCode::ALL {
        assert_eq!(one.is_current(fir), two.is_current(fir));
        assert_eq!(one.is_current(fir), fir == FirCode::LFMM);
    }
}

#[test]
fn the_regions_are_listed_in_the_order_of_their_codes() {
    let codes: Vec<&str> = FirCode::ALL.iter().map(|fir| fir.as_str()).collect();
    assert_eq!(codes, vec!["LFBB", "LFEE", "LFFF", "LFMM", "LFRR"]);
}
