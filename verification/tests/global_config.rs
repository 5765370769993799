use midi_patch_config::config_builder::{
    resolve_global_config, FreeVoiceStrategy, GlobalConfig, GlobalSection, VoiceStealingConfig,
    DEFAULT_CC_MAPPING, ENCODER_COUNT,
};

#[test]
fn default_global_config() {
    let c = GlobalConfig::default();
    assert_eq!(c.voice_stealing, VoiceStealingConfig::LegatoLast);
    assert_eq!(c.voice_release, FreeVoiceStrategy::ReleaseOnZero);
    assert_eq!(c.cc_mappings, [74, 71, 76, 77, 0, 0, 0, 0]);
    assert_eq!(DEFAULT_CC_MAPPING.len(), ENCODER_COUNT);
}

#[test]
fn unreadable_settings_give_defaults() {
    assert_eq!(resolve_global_config(None), GlobalConfig::default());
}

#[test]
fn empty_section_gives_defaults() {
    assert_eq!(resolve_global_config(Some(GlobalSection::default())), GlobalConfig::default());
}

#[test]
fn given_keys_override_defaults() {
    let section = GlobalSection {
        cc_mappings: Some([1, 2, 3, 4, 5, 6, 7, 8]),
        voice_stealing: Some(VoiceStealingConfig::LegatoOldest),
        voice_release: None,
    };
    let c = resolve_global_config(Some(section));
    assert_eq!(c.cc_mappings, [1, 2, 3, 4, 5, 6, 7, 8]);
    assert_eq!(c.voice_stealing, VoiceStealingConfig::LegatoOldest);
    assert_eq!(c.voice_release, FreeVoiceStrategy::ReleaseOnZero);
    let section = GlobalSection {
        cc_mappings: None,
        voice_stealing: None,
        voice_release: Some(FreeVoiceStrategy::FollowADSR),
    };
    let c = resolve_global_config(Some(section));
    assert_eq!(c.cc_mappings, DEFAULT_CC_MAPPING);
    assert_eq!(c.voice_release, FreeVoiceStrategy::FollowADSR);
}
