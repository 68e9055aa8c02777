use al_bytecode::native::{
    parse, splitmix64, FuncIdx, NativeConfig, NativeEntry, NativeMode, NativeStatus, NativeTable,
    UnitStats,
};

#[test]
fn empty_table_answers_none_for_any_idx() {
    let t = NativeTable::default();
    assert!(t.is_empty());
    assert!(t.get(FuncIdx(0)).is_none());
    assert!(t.get(FuncIdx(41)).is_none());
}

#[test]
fn set_then_get_round_trips_the_entry() {
    let mut t = NativeTable::new(3);
    assert!(t.get(FuncIdx(1)).is_none());
    t.set(FuncIdx(1), NativeEntry(0x1234));
    let entry = t.get(FuncIdx(1)).expect("just set");
    assert_eq!(entry.0, 0x1234);
    assert!(t.get(FuncIdx(0)).is_none());
    assert!(t.get(FuncIdx(2)).is_none());
}

#[test]
fn out_of_range_get_is_none_not_a_panic() {
    let t = NativeTable::new(1);
    assert!(t.get(FuncIdx(7)).is_none());
}

#[test]
fn compiled_walks_populated_slots_in_order() {
    let mut t = NativeTable::new(4);
    t.set(FuncIdx(2), NativeEntry(1));
    t.set(FuncIdx(0), NativeEntry(1));
    let idxs: Vec<FuncIdx> = t.compiled().into_iter().map(|(i, _)| i).collect();
    assert_eq!(idxs, vec![FuncIdx(0), FuncIdx(2)]);
}

#[test]
fn status_discriminants_are_abi() {
    assert_eq!(NativeStatus::Done.code(), 0);
    assert_eq!(NativeStatus::Yield.code(), 1);
    assert_eq!(NativeStatus::Parked.code(), 2);
    assert_eq!(NativeStatus::Error.code(), 3);
    assert_eq!(NativeStatus::TailCall.code(), 4);
    assert_eq!(std::mem::size_of_val(&NativeStatus::Done.code()), 8);
}

#[test]
fn unset_defaults_to_native() {
    let p = parse(None, None);
    assert_eq!(p.mode, NativeMode::Native);
    assert!(p.seed.is_none());
    assert!(p.warnings.is_empty());
}

#[test]
fn parses_all_three_modes() {
    assert_eq!(parse(Some("off"), None).mode, NativeMode::Off);
    assert_eq!(parse(Some("native"), None).mode, NativeMode::Native);
    assert_eq!(parse(Some("mix"), None).mode, NativeMode::Mix);
}

#[test]
fn unknown_mode_warns_and_defaults_to_native() {
    let p = parse(Some("on"), None);
    assert_eq!(p.mode, NativeMode::Native);
    assert_eq!(p.warnings.len(), 1);
}

#[test]
fn a_warning_quotes_what_it_is_about() {
    let p = parse(Some("o\"n"), None);
    assert!(p.warnings[0].contains("\"o\\\"n\""));
    let q = parse(Some("mix"), Some("ban\tana"));
    assert!(q.warnings[0].contains("\"ban\\tana\""));
}

#[test]
fn seed_is_a_mix_only_knob() {
    assert_eq!(parse(Some("mix"), Some("42")).seed, Some(42));
    assert_eq!(parse(Some("native"), Some("42")).seed, None);
    assert_eq!(parse(Some("off"), Some("42")).seed, None);
}

#[test]
fn bad_seed_warns_and_falls_back_to_entropy() {
    let p = parse(Some("mix"), Some("banana"));
    assert_eq!(p.mode, NativeMode::Mix);
    assert!(p.seed.is_none());
    assert_eq!(p.warnings.len(), 1);
}

#[test]
fn off_selects_nothing_native_selects_everything() {
    let off = NativeConfig {
        mode: NativeMode::Off,
        seed: 0,
    };
    let native = NativeConfig {
        mode: NativeMode::Native,
        seed: 0,
    };
    for i in 0..64 {
        assert!(!off.includes(FuncIdx(i)));
        assert!(native.includes(FuncIdx(i)));
    }
}

#[test]
fn mix_is_deterministic_in_seed_and_a_proper_subset() {
    let a = NativeConfig {
        mode: NativeMode::Mix,
        seed: 42,
    };
    let b = NativeConfig {
        mode: NativeMode::Mix,
        seed: 42,
    };
    let picks: Vec<bool> = (0..256).map(|i| a.includes(FuncIdx(i))).collect();
    let again: Vec<bool> = (0..256).map(|i| b.includes(FuncIdx(i))).collect();
    assert_eq!(picks, again);
    // Neither empty nor everything: the subset actually mixes.
    assert!(picks.iter().any(|&p| p));
    assert!(picks.iter().any(|&p| !p));
}

#[test]
fn mix_subsets_differ_across_seeds() {
    let a = NativeConfig {
        mode: NativeMode::Mix,
        seed: 1,
    };
    let b = NativeConfig {
        mode: NativeMode::Mix,
        seed: 2,
    };
    let differs = (0..256).any(|i| a.includes(FuncIdx(i)) != b.includes(FuncIdx(i)));
    assert!(differs);
}

#[test]
fn the_mixer_is_splitmix() {
    assert_eq!(splitmix64(0), 0xE220_A839_7B1D_CDAF);
}

#[test]
fn a_unit_is_over_budget_past_a_tenth_of_a_second() {
    let mut s = UnitStats {
        selected: 0,
        elapsed: 0,
    };
    s.record(100_000_000);
    assert!(!s.over_budget());
    s.record(1);
    assert!(s.over_budget());
    assert_eq!(s.selected, 2);
}

#[test]
fn a_seed_is_drawn_only_where_none_is_given() {
    assert_eq!(NativeConfig::settle(NativeMode::Mix, Some(7), 9).seed, 7);
    assert_eq!(NativeConfig::settle(NativeMode::Mix, None, 9).seed, 9);
    assert_eq!(NativeConfig::settle(NativeMode::Off, None, 9).seed, 0);
}

#[test]
fn a_table_of_no_slots_is_the_default_one() {
    let t = NativeTable::new(0);
    assert_eq!(t.len(), NativeTable::default().len());
    assert!(t.get(FuncIdx(0)).is_none());
    assert!(t.compiled().is_empty());
}

#[test]
fn a_configuration_is_settled_once() {
    let parsed = parse(Some("mix"), Some("7"));
    let (config, lines) = NativeConfig::configure(None, parsed, 99);
    assert_eq!((config.mode, config.seed), (NativeMode::Mix, 7));
    assert_eq!(lines, ["al: native mix seed = 7"]);
    let (later, lines) = NativeConfig::configure(Some(config), parse(Some("bad"), None), 3);
    assert_eq!(later, config);
    assert!(lines.is_empty());
    let (drawn, lines) = NativeConfig::configure(None, parse(Some("mix"), Some("x")), 99);
    assert_eq!(drawn.seed, 99);
    assert_eq!(
        lines,
        ["al: AL_NATIVE_SEED \"x\" is not a u64; drawing a random seed"]
    );
    let (off, lines) = NativeConfig::configure(None, parse(Some("off"), Some("7")), 99);
    assert_eq!((off.mode, off.seed), (NativeMode::Off, 0));
    assert!(lines.is_empty());
}
