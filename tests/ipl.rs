use city_assets::ipl::{Decimal, Instance, Ipl, Vector3};
use city_assets::naming::model_asset_path;
use city_assets::sections::categorise_lines;
use city_assets::AssetError;

fn value(d: &Decimal) -> f32 {
    let text = format!("{}{}", if d.negative { "-" } else { "" }, d.magnitude);
    text.parse().unwrap()
}

fn triple(v: &Vector3) -> [f32; 3] {
    [value(&v.x), value(&v.y), value(&v.z)]
}

fn rotation(i: &Instance) -> [f32; 4] {
    [
        value(&i.rotation.x),
        value(&i.rotation.y),
        value(&i.rotation.z),
        value(&i.rotation.w),
    ]
}

fn dec(negative: bool, magnitude: &str) -> Decimal {
    Decimal { negative, magnitude: magnitude.to_string() }
}

#[test]
fn can_parse_downtown_subset() {
    const TEST_DATA: &str = r"
# IPL generated from Max file downtown.max
inst
1860, doontoon03, 0, -445.4862671, 1280.132813, 42.78390503, 1, 1, 1, 0, 0, 0, 1
1861, doontoon04, 0, -303.8299866, 1394.506836, 6.610000134, 1, 1, 1, 0, 0, 0, 1
1862, doontoon09, 0, -798.4454346, 1039.305176, 12.29159546, 1, 1, 1, 0, 0, 0, 1
end
cull
end
pick
end
path
end
";

    let test_data = TEST_DATA.trim();
    let ipl = Ipl::parse(test_data).unwrap();
    let expected: [(&str, u32, [f32; 3]); 3] = [
        ("doontoon03", 0, [-445.48627, 42.783905, -1280.1328]),
        ("doontoon04", 0, [-303.83, 6.61, -1394.5068]),
        ("doontoon09", 0, [-798.44543, 12.291595, -1039.3052]),
    ];
    assert_eq!(ipl.instances.len(), expected.len());
    for (inst, (name, interior, position)) in ipl.instances.iter().zip(expected.iter()) {
        assert_eq!(inst.model_name, name.to_string());
        assert_eq!(inst.interior, *interior);
        assert_eq!(triple(&inst.position), *position);
        assert_eq!(triple(&inst.scale), [1.0, 1.0, 1.0]);
        assert_eq!(rotation(inst), [0.0, 0.0, 0.0, 1.0]);
    }
}

#[test]
fn known_good_line_converts_exactly() {
    let text = "inst\n1860, doontoon03, 0, -445.4862671, 1280.132813, 42.78390503, 1, 1, 1, 0, 0, 0, 1\nend";
    let ipl = Ipl::parse(text).unwrap();
    let inst = &ipl.instances[0];
    assert_eq!(inst.model_name, "doontoon03");
    assert_eq!(inst.interior, 0);
    assert_eq!(inst.position.x, dec(true, "445.4862671"));
    assert_eq!(inst.position.y, dec(false, "42.78390503"));
    assert_eq!(inst.position.z, dec(true, "1280.132813"));
    assert_eq!(triple(&inst.position), [-445.48627, 42.783905, -1280.1328]);
    assert_eq!(triple(&inst.scale), [1.0, 1.0, 1.0]);
    assert_eq!(rotation(inst), [0.0, 0.0, 0.0, 1.0]);
}

#[test]
fn position_swaps_and_negates_scale_only_swaps() {
    let text = "inst\n7, box, 3, 1, -2, 3, 4, 5, 6, 0.5, -0.5, 0.25, 1e0\nend";
    let ipl = Ipl::parse(text).unwrap();
    let inst = &ipl.instances[0];
    assert_eq!(inst.interior, 3);
    assert_eq!(inst.position.x, dec(false, "1"));
    assert_eq!(inst.position.y, dec(false, "3"));
    assert_eq!(inst.position.z, dec(false, "2"));
    assert_eq!(triple(&inst.scale), [4.0, 6.0, 5.0]);
    assert_eq!(rotation(inst), [0.5, -0.5, 0.25, 1.0]);
}

#[test]
fn empty_instance_section_gives_no_records() {
    let ipl = Ipl::parse("inst\nend\ncull\nend").unwrap();
    assert_eq!(ipl.instances.len(), 0);
}

#[test]
fn missing_instance_section_is_an_error() {
    assert_eq!(Ipl::parse("cull\nend\npath\nend"), Err(AssetError::MissingRequiredSection));
    assert_eq!(Ipl::parse(""), Err(AssetError::MissingRequiredSection));
}

#[test]
fn unterminated_section_is_an_error() {
    let text = "inst\n1, a, 0, 1, 2, 3, 1, 1, 1, 0, 0, 0, 1\n";
    assert_eq!(Ipl::parse(text), Err(AssetError::UnterminatedSection));
}

#[test]
fn short_line_is_malformed() {
    let text = "inst\n1, a, 0, 1, 2, 3, 1, 1, 1, 0, 0, 0\nend";
    assert_eq!(Ipl::parse(text), Err(AssetError::MalformedLine(0)));
}

#[test]
fn bad_number_names_its_line() {
    let text = "inst\n1, a, 0, 1, 2, 3, 1, 1, 1, 0, 0, 0, 1\n2, b, 0, 1, x, 3, 1, 1, 1, 0, 0, 0, 1\nend";
    assert_eq!(Ipl::parse(text), Err(AssetError::MalformedLine(1)));
}

#[test]
fn interior_must_fit_in_u32() {
    let ok = "inst\n1, a, 4294967295, 1, 2, 3, 1, 1, 1, 0, 0, 0, 1\nend";
    assert_eq!(Ipl::parse(ok).unwrap().instances[0].interior, u32::MAX);
    let too_big = "inst\n1, a, 4294967296, 1, 2, 3, 1, 1, 1, 0, 0, 0, 1\nend";
    assert_eq!(Ipl::parse(too_big), Err(AssetError::MalformedLine(0)));
}

#[test]
fn record_count_matches_data_lines() {
    let text = "# header\ninst\n1, a, 0, 1, 2, 3, 1, 1, 1, 0, 0, 0, 1\n\n# note\n2, b, 1, 1, 2, 3, 1, 1, 1, 0, 0, 0, 1\nend\nINST\n3, c, 2, 1, 2, 3, 1, 1, 1, 0, 0, 0, 1\nend";
    let ipl = Ipl::parse(text).unwrap();
    let names: Vec<&str> = ipl.instances.iter().map(|i| i.model_name.as_str()).collect();
    assert_eq!(names, vec!["a", "b", "c"]);
}

#[test]
fn sections_keep_their_lines() {
    let secs = categorise_lines("inst\n a , b \nend\ncull\nx\nend").unwrap();
    assert_eq!(secs.len(), 2);
    assert_eq!(secs[0].tag, vec!['i', 'n', 's', 't']);
    assert_eq!(secs[0].lines, vec!["a , b".chars().collect::<Vec<char>>()]);
    assert_eq!(secs[1].tag, vec!['c', 'u', 'l', 'l']);
    assert_eq!(secs[1].lines, vec![vec!['x']]);
}

#[test]
fn model_paths_skip_lod_names() {
    assert_eq!(model_asset_path("LODdoontoon"), None);
    assert_eq!(model_asset_path("doontoon03"), Some("models/gta3/doontoon03.dff".to_string()));
    assert_eq!(model_asset_path("lod"), Some("models/gta3/lod.dff".to_string()));
}
