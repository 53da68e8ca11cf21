use kdj_server::anlz::{anlz_section_ranges, cue_section_key, preserve_external_cue_sections};
use kdj_server::one_library_analysis::{
    anlz_directory, path_section, AnalysisBundle, Bands, LocalAnalysis, LocalTrack, LocalWaveform,
    StretchedColumns, WaveColumn,
};

fn track() -> LocalTrack {
    let interval = 60.0 / 120.0;
    let mut time: f64 = 0.25f64.rem_euclid(interval);
    let mut beats = Vec::new();
    while time <= 2.0 {
        beats.push((time * 1_000.0).round() as u32);
        time += interval;
    }
    LocalTrack {
        id: 7,
        analyzed: true,
        tempo: Some(12_000),
        beat_times_ms: Some(beats),
        detail_columns: (2.0f64 * 150.0).round() as usize,
    }
}

fn waveform() -> LocalWaveform {
    let amp = [0.0f32, 0.5, 1.0, 0.25];
    let r = vec![0u8, 255, 64, 32];
    let g = vec![0u8, 64, 255, 64];
    let b = vec![0u8, 32, 64, 255];
    let mut heights = Vec::new();
    let mut bands = Vec::new();
    for i in 0..amp.len() {
        let height = (amp[i].clamp(0.0, 1.0) * 31.0).round() as u8;
        let peak = r[i].max(g[i]).max(b[i]);
        let scale = if peak == 0 { 0.0 } else { f32::from(height) / f32::from(peak) };
        let band = |value: u8| (f32::from(value) * scale).round().clamp(0.0, 31.0) as u8;
        heights.push(Some(height));
        bands.push(Bands { low: band(r[i]), mid: band(g[i]), high: band(b[i]) });
    }
    LocalWaveform { track_id: 7, heights, r, g, b, bands }
}

fn stretched_to(columns: &[WaveColumn], count: usize) -> Vec<WaveColumn> {
    (0..count)
        .map(|index| {
            let position = index as f64 * (columns.len() - 1) as f64 / (count - 1) as f64;
            let left = columns[position.floor() as usize];
            let right = columns[position.ceil() as usize];
            let ratio = position - position.floor();
            let mix = |a: u8, b: u8| {
                (f64::from(a) + (f64::from(b) - f64::from(a)) * ratio).round() as u8
            };
            WaveColumn {
                height: mix(left.height, right.height),
                whiteness: mix(left.whiteness, right.whiteness),
                low: mix(left.low, right.low),
                mid: mix(left.mid, right.mid),
                high: mix(left.high, right.high),
            }
        })
        .collect()
}

fn stretched(analysis: &LocalAnalysis) -> StretchedColumns {
    StretchedColumns {
        detail: stretched_to(&analysis.columns, analysis.detail_columns),
        preview: stretched_to(&analysis.columns, 400),
        tiny: stretched_to(&analysis.columns, 100),
        color: stretched_to(&analysis.columns, 1_200),
    }
}

fn bundle() -> AnalysisBundle {
    let analysis = LocalAnalysis::from_local(&track(), &waveform()).unwrap();
    let columns = stretched(&analysis);
    analysis.bundle("/Contents/KDJ/Test.mp3", &columns)
}

fn tags(body: &[u8]) -> Vec<String> {
    assert_eq!(&body[..4], b"PMAI");
    assert_eq!(
        u32::from_be_bytes(body[8..12].try_into().unwrap()) as usize,
        body.len()
    );
    let mut offset = u32::from_be_bytes(body[4..8].try_into().unwrap()) as usize;
    let mut result = Vec::new();
    while offset < body.len() {
        let total = u32::from_be_bytes(body[offset + 8..offset + 12].try_into().unwrap()) as usize;
        assert!(total >= 12 && offset + total <= body.len());
        result.push(String::from_utf8_lossy(&body[offset..offset + 4]).into_owned());
        offset += total;
    }
    assert_eq!(offset, body.len());
    result
}

#[test]
fn analysis_bundle_contains_grid_and_all_waveform_generations() {
    let bundle = bundle();
    assert_eq!(bundle.files.len(), 3);
    assert_eq!(
        tags(&bundle.files[0].body),
        ["PPTH", "PVBR", "PQTZ", "PWAV", "PWV2", "PCOB", "PCOB"]
    );
    assert_eq!(
        tags(&bundle.files[1].body),
        ["PPTH", "PWV3", "PCOB", "PCOB", "PCO2", "PCO2", "PQT2", "PWV5", "PWV4", "PVB2"]
    );
    assert_eq!(tags(&bundle.files[2].body), ["PPTH", "PWV7", "PWV6", "PWVC"]);
    assert!(bundle.database_path.ends_with("/ANLZ0000.DAT"));
}

#[test]
fn path_hash_matches_a_rekordbox_ground_truth_export() {
    let path = "/Contents/Various Artists/Reel People Music Sampler Volume 3/04 Joe Buhdha Presents Terri Walker – Feel .aiff";
    assert_eq!(anlz_directory(path), "PIONEER/USBANLZ/P040/0001C418");
}

#[test]
fn incomplete_local_analysis_keeps_the_target_reanalysis_fallback() {
    let mut incomplete = track();
    incomplete.beat_times_ms = None;
    assert!(LocalAnalysis::from_local(&incomplete, &waveform()).is_none());
    let mut incomplete = track();
    incomplete.analyzed = false;
    assert!(LocalAnalysis::from_local(&incomplete, &waveform()).is_none());
}

#[test]
fn placeholder_bundle_reserves_writable_memory_hot_and_extended_cues() {
    let bundle = AnalysisBundle::placeholder("/Contents/KDJ/Test.mp3");
    assert_eq!(bundle.files.len(), 3);
    let dat = &bundle.files[0].body;
    let dat_keys: Vec<_> = anlz_section_ranges(dat)
        .unwrap()
        .1
        .iter()
        .filter_map(|range| cue_section_key(dat, range))
        .collect();
    assert_eq!(dat_keys, vec![(*b"PCOB", 1), (*b"PCOB", 0)]);
    let ext = &bundle.files[1].body;
    let ext_keys: Vec<_> = anlz_section_ranges(ext)
        .unwrap()
        .1
        .iter()
        .filter_map(|range| cue_section_key(ext, range))
        .collect();
    assert_eq!(
        ext_keys,
        vec![(*b"PCOB", 1), (*b"PCOB", 0), (*b"PCO2", 1), (*b"PCO2", 0),]
    );
    assert!(bundle.database_path.ends_with("/ANLZ0000.DAT"));
}

#[test]
fn incremental_analysis_keeps_external_cue_sections_byte_for_byte() {
    let generated = bundle().files[0].body.clone();
    let (_, ranges) = anlz_section_ranges(&generated).unwrap();
    let hot_range = ranges
        .into_iter()
        .find(|range| cue_section_key(&generated, range) == Some((*b"PCOB", 1)))
        .unwrap();
    let mut external_hot = generated[hot_range.clone()].to_vec();
    external_hot[18..20].copy_from_slice(&1u16.to_be_bytes());
    external_hot.extend_from_slice(b"PCPT-external-cue");
    let section_len = u32::try_from(external_hot.len()).unwrap();
    external_hot[8..12].copy_from_slice(&section_len.to_be_bytes());

    let mut existing = Vec::new();
    existing.extend_from_slice(&generated[..hot_range.start]);
    existing.extend_from_slice(&external_hot);
    existing.extend_from_slice(&generated[hot_range.end..]);
    let existing_len = u32::try_from(existing.len()).unwrap();
    existing[8..12].copy_from_slice(&existing_len.to_be_bytes());

    let mut regenerated = generated.clone();
    let path_range = anlz_section_ranges(&regenerated).unwrap().1[0].clone();
    regenerated[path_range.end - 2] ^= 0x01;

    let merged = preserve_external_cue_sections(&regenerated, &existing);
    let (_, merged_ranges) = anlz_section_ranges(&merged).unwrap();
    let merged_hot = merged_ranges
        .into_iter()
        .find(|range| cue_section_key(&merged, range) == Some((*b"PCOB", 1)))
        .unwrap();
    assert_eq!(&merged[merged_hot], external_hot);
    assert_eq!(merged[path_range.end - 2], regenerated[path_range.end - 2]);
}

#[test]
fn a_file_that_is_no_analysis_is_replaced_whole() {
    let generated = bundle().files[0].body.clone();
    assert_eq!(preserve_external_cue_sections(&generated, b"not an analysis"), generated);
    assert!(anlz_section_ranges(b"PMAI").is_none());
}

#[test]
fn an_empty_path_hashes_to_nothing() {
    assert_eq!(anlz_directory(""), "PIONEER/USBANLZ/P000/00000000");
}

#[test]
fn merging_the_same_file_twice_changes_nothing() {
    let generated = bundle().files[1].body.clone();
    let mut existing = AnalysisBundle::placeholder("/Contents/KDJ/Test.mp3").files[1].body.clone();
    let cue = anlz_section_ranges(&existing).unwrap().1[1].clone();
    existing[cue.end - 1] = 7;
    let merged = preserve_external_cue_sections(&generated, &existing);
    assert_ne!(merged, generated);
    assert!(anlz_section_ranges(&merged).is_some());
    assert_eq!(preserve_external_cue_sections(&merged, &existing), merged);
}

#[test]
fn a_placeholder_begins_with_the_path_of_the_audio_file() {
    for path in ["", "/Contents/KDJ/Test.mp3", "/Contents/🎵.mp3"] {
        let bundle = AnalysisBundle::placeholder(path);
        for file in &bundle.files {
            let ranges = anlz_section_ranges(&file.body).unwrap().1;
            assert_eq!(file.body[ranges[0].clone()], path_section(path)[..]);
        }
    }
    let long = "x".repeat(0x10_0000);
    let bundle = AnalysisBundle::placeholder(&long);
    assert_eq!(tags(&bundle.files[0].body), ["PPTH", "PCOB", "PCOB"]);
    assert_eq!(bundle.files[2].body.len(), 28 + 16 + 2 * (0x10_0000 + 1));
}
