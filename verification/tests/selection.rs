use vela_core::selection::{
    rank_candidates, CompatibilityTarget, EndpointLocality, HdrState, PlaybackCandidate,
    PlaybackSourcePolicy,
};

fn candidate(
    source: &str,
    version: &str,
    width: u32,
    height: u32,
    hdr: bool,
    bitrate: u64,
    locality: EndpointLocality,
) -> PlaybackCandidate {
    PlaybackCandidate {
        source_id: source.to_string(),
        version_id: version.to_string(),
        width,
        height,
        hdr,
        bitrate,
        direct_play_rank: 0,
        locality,
    }
}

#[test]
fn policy_normalization_is_closed_and_best_is_fail_safe() {
    assert_eq!(
        PlaybackSourcePolicy::normalize(None),
        PlaybackSourcePolicy::Best
    );
    assert_eq!(
        PlaybackSourcePolicy::normalize(Some("future-mode")),
        PlaybackSourcePolicy::Best
    );
    assert_eq!(
        PlaybackSourcePolicy::normalize(Some("compatible")),
        PlaybackSourcePolicy::Compatible
    );
    assert_eq!(
        PlaybackSourcePolicy::normalize(Some("fastest")),
        PlaybackSourcePolicy::Fastest
    );
    assert_eq!(
        PlaybackSourcePolicy::normalize(Some("ask")),
        PlaybackSourcePolicy::Ask
    );
}

#[test]
fn best_orders_resolution_before_hdr_then_bitrate() {
    let mut values = vec![
        candidate(
            "a",
            "1080-hdr",
            1920,
            1080,
            true,
            40,
            EndpointLocality::Internet,
        ),
        candidate(
            "a",
            "4k-sdr",
            3840,
            2160,
            false,
            20,
            EndpointLocality::Internet,
        ),
        candidate(
            "a",
            "4k-hdr-low",
            3840,
            2160,
            true,
            20,
            EndpointLocality::Internet,
        ),
        candidate(
            "a",
            "4k-hdr-high",
            3840,
            2160,
            true,
            30,
            EndpointLocality::Internet,
        ),
    ];
    rank_candidates(&mut values, PlaybackSourcePolicy::Best, None);
    assert_eq!(
        values
            .iter()
            .map(|item| item.version_id.as_str())
            .collect::<Vec<_>>(),
        ["4k-hdr-high", "4k-hdr-low", "4k-sdr", "1080-hdr"]
    );
}

#[test]
fn compatible_stays_within_resolution_and_matches_hdr_state() {
    let target = CompatibilityTarget {
        width: 1920,
        height: 1080,
        hdr: HdrState::Disabled,
    };
    let mut values = vec![
        candidate(
            "a",
            "4k-sdr",
            3840,
            2160,
            false,
            80,
            EndpointLocality::Internet,
        ),
        candidate(
            "a",
            "1080-hdr",
            1920,
            1080,
            true,
            40,
            EndpointLocality::Internet,
        ),
        candidate(
            "a",
            "1080-sdr",
            1920,
            1080,
            false,
            20,
            EndpointLocality::Internet,
        ),
    ];
    rank_candidates(&mut values, PlaybackSourcePolicy::Compatible, Some(target));
    assert_eq!(values[0].version_id, "1080-sdr");
    assert_eq!(values[1].version_id, "1080-hdr");
    assert_eq!(values[2].version_id, "4k-sdr");
}

#[test]
fn compatible_uses_nearest_larger_version_when_nothing_fits() {
    let target = CompatibilityTarget {
        width: 1280,
        height: 720,
        hdr: HdrState::Unknown,
    };
    let mut values = vec![
        candidate("a", "4k", 3840, 2160, false, 80, EndpointLocality::Internet),
        candidate(
            "a",
            "1080",
            1920,
            1080,
            false,
            20,
            EndpointLocality::Internet,
        ),
    ];
    rank_candidates(&mut values, PlaybackSourcePolicy::Compatible, Some(target));
    assert_eq!(values[0].version_id, "1080");
}

#[test]
fn fastest_enforces_host_then_lan_then_internet_before_quality() {
    let mut values = vec![
        candidate(
            "remote",
            "8k",
            7680,
            4320,
            true,
            100,
            EndpointLocality::Internet,
        ),
        candidate("lan", "4k", 3840, 2160, true, 50, EndpointLocality::Lan),
        candidate(
            "host",
            "720",
            1280,
            720,
            false,
            5,
            EndpointLocality::SameMachine,
        ),
    ];
    rank_candidates(&mut values, PlaybackSourcePolicy::Fastest, None);
    assert_eq!(
        values
            .iter()
            .map(|item| item.source_id.as_str())
            .collect::<Vec<_>>(),
        ["host", "lan", "remote"]
    );
}

#[test]
fn exact_ties_use_source_then_version_ids() {
    let mut values = vec![
        candidate("b", "1", 1920, 1080, false, 20, EndpointLocality::Internet),
        candidate("a", "2", 1920, 1080, false, 20, EndpointLocality::Internet),
        candidate("a", "1", 1920, 1080, false, 20, EndpointLocality::Internet),
    ];
    rank_candidates(&mut values, PlaybackSourcePolicy::Best, None);
    assert_eq!(
        values
            .iter()
            .map(|item| (item.source_id.as_str(), item.version_id.as_str()))
            .collect::<Vec<_>>(),
        [("a", "1"), ("a", "2"), ("b", "1")]
    );
}

#[test]
fn ranking_does_not_depend_on_arrival_order() {
    let all = vec![
        candidate("b", "1", 1920, 1080, false, 20, EndpointLocality::Internet),
        candidate("a", "2", 1920, 1080, false, 20, EndpointLocality::Lan),
        candidate("a", "1", 1920, 1080, false, 20, EndpointLocality::SameMachine),
        candidate("c", "1", 3840, 2160, true, 80, EndpointLocality::Internet),
        candidate("a", "3", 1280, 720, false, 5, EndpointLocality::SameMachine),
    ];
    let ids = |v: &Vec<PlaybackCandidate>| {
        v.iter()
            .map(|c| format!("{}/{}", c.source_id, c.version_id))
            .collect::<Vec<_>>()
    };
    let target = CompatibilityTarget { width: 1920, height: 1080, hdr: HdrState::Disabled };
    for (policy, target) in [
        (PlaybackSourcePolicy::Best, None),
        (PlaybackSourcePolicy::Fastest, None),
        (PlaybackSourcePolicy::Compatible, Some(target)),
    ] {
        let mut first = all.clone();
        rank_candidates(&mut first, policy, target);
        for shift in 1..all.len() {
            let mut other = all.clone();
            other.rotate_left(shift);
            other.swap(0, 1);
            rank_candidates(&mut other, policy, target);
            assert_eq!(ids(&first), ids(&other), "{policy:?} depends on arrival order");
        }
    }
}
