use exdsdevs::errors::ExdsdevsError;
use exdsdevs::model::Model;
use exdsdevs::simulator::Simulator;
use exdsdevs::variants::{count_ways, walk_tree, InitVariants};
use serde_json::Value;

fn with_variants(values: &[i64]) -> Model {
    let mut model = Model::default();
    for value in values {
        model = model.with_init_variant(&format!("v{}", value), Value::from(*value));
    }
    model
}

fn chosen(values: &Vec<(String, Value)>) -> Vec<(String, Value)> {
    values.clone()
}

fn way(values: &[(&str, Value)]) -> Vec<(String, Value)> {
    values.iter().map(|(path, value)| ((*path).to_owned(), value.clone())).collect()
}

#[test]
fn two_and_three_values_give_six_ways() {
    let model = Model::default()
        .with_default_init(Value::from("plain"))
        .with_submodel("a", with_variants(&[1, 2]))
        .with_submodel("b", with_variants(&[10, 20, 30]));
    let mut variants = InitVariants::new(&model).unwrap();
    assert_eq!(variants.total, 6);
    assert_eq!(variants.index, 0);
    let mut seen = Vec::new();
    while let Some((number, values)) = variants.next() {
        seen.push((number, chosen(&values)));
    }
    let expected: Vec<(u64, Vec<(String, Value)>)> = vec![(1, 10), (1, 20), (1, 30), (2, 10), (2, 20), (2, 30)]
        .into_iter()
        .enumerate()
        .map(|(number, (a, b))| {
            (
                number as u64,
                way(&[
                    ("root", Value::from("plain")),
                    ("root/a", Value::from(a)),
                    ("root/b", Value::from(b)),
                ]),
            )
        })
        .collect();
    assert_eq!(seen, expected);
    assert!(variants.next().is_none());
    assert!(variants.next().is_none());
    assert_eq!(variants.index, 6);
}

#[test]
fn every_way_is_handed_out_once() {
    let model = with_variants(&[1, 2, 3])
        .with_submodel("a", with_variants(&[1, 2]).with_submodel("deep", with_variants(&[5, 6])))
        .with_submodel("b", Model::default())
        .with_submodel("c", with_variants(&[7, 8, 9, 10]));
    let mut variants = InitVariants::new(&model).unwrap();
    assert_eq!(variants.total, 3 * 2 * 1 * 4 * 2);
    let mut seen: Vec<Vec<(String, Value)>> = Vec::new();
    let mut expected_number = 0;
    while let Some((number, values)) = variants.next() {
        assert_eq!(number, expected_number);
        expected_number += 1;
        assert!(!seen.contains(&values));
        seen.push(values);
    }
    assert_eq!(seen.len(), 48);
}

#[test]
fn the_tree_is_walked_level_by_level() {
    let model = Model::default()
        .with_submodel(
            "b",
            Model::default()
                .with_submodel("y", Model::default())
                .with_submodel("x", Model::default().with_submodel("deep", Model::default())),
        )
        .with_submodel("a", Model::default().with_submodel("z", Model::default()))
        .with_submodel("c", with_variants(&[4, 5]));
    let (paths, choices) = walk_tree(&model, "top");
    assert_eq!(
        paths,
        vec![
            "top".to_owned(),
            "top/a".to_owned(),
            "top/b".to_owned(),
            "top/c".to_owned(),
            "top/a/z".to_owned(),
            "top/b/x".to_owned(),
            "top/b/y".to_owned(),
            "top/b/x/deep".to_owned(),
        ]
    );
    assert_eq!(choices.len(), 8);
    assert_eq!(choices[0], vec![Value::Null]);
    assert_eq!(choices[3], vec![Value::from(4), Value::from(5)]);
}

#[test]
fn a_model_without_values_has_one_way() {
    let model = Model::default().with_default_init(Value::from(3));
    let mut variants = InitVariants::new(&model).unwrap();
    assert_eq!(variants.total, 1);
    assert_eq!(variants.next(), Some((0, way(&[("root", Value::from(3))]))));
    assert_eq!(variants.next(), None);
}

#[test]
fn the_last_wheel_turns_fastest() {
    let model = with_variants(&[0, 1])
        .with_submodel("a", with_variants(&[0, 1]))
        .with_submodel("b", with_variants(&[0, 1]));
    let mut variants = InitVariants::new(&model).unwrap();
    let mut digits = Vec::new();
    while let Some((_, values)) = variants.next() {
        let shown: Vec<i64> = values.iter().map(|(_, v)| v.as_i64().unwrap()).collect();
        digits.push(shown[0] * 4 + shown[1] * 2 + shown[2]);
    }
    assert_eq!(digits, vec![0, 1, 2, 3, 4, 5, 6, 7]);
}

#[test]
fn the_ways_are_counted() {
    assert_eq!(count_ways(&vec![]), Some(1));
    assert_eq!(count_ways(&vec![2, 3]), Some(6));
    assert_eq!(count_ways(&vec![7, 0, 5]), Some(0));
    assert_eq!(count_ways(&vec![usize::MAX, 2, 0]), Some(0));
    assert_eq!(count_ways(&vec![usize::MAX, 1]), Some(usize::MAX as u64));
    assert_eq!(count_ways(&vec![usize::MAX, 2]), None);
    assert_eq!(count_ways(&vec![1 << 32, 1 << 31]), Some(1 << 63));
    assert_eq!(count_ways(&vec![1 << 32, 1 << 32]), None);
}

#[test]
fn more_ways_than_can_be_counted_are_an_error() {
    let mut model = Model::default();
    for i in 0..64 {
        model = model.with_submodel(&format!("m{}", i), with_variants(&[0, 1]));
    }
    match InitVariants::new(&model) {
        Err(ExdsdevsError::ErrorCartesian(_)) => {}
        Ok(variants) => panic!("counted {} ways", variants.total),
        Err(other) => panic!("unexpected error {:?}", other),
    }
    let mut fewer = Model::default();
    for i in 0..63 {
        fewer = fewer.with_submodel(&format!("m{}", i), with_variants(&[0, 1]));
    }
    assert_eq!(InitVariants::new(&fewer).unwrap().total, 1 << 63);
}

#[test]
fn a_tree_takes_the_values_that_are_chosen_for_it() {
    let model = Model::default()
        .with_default_init(Value::from("r"))
        .with_submodel("a", Model::default().with_default_init(Value::from("a")))
        .with_submodel(
            "b",
            Model::default()
                .with_default_init(Value::from("b"))
                .with_submodel("c", Model::default().with_default_init(Value::from("c"))),
        );
    let mut sim = Simulator::new("root".to_owned(), model, 0);
    assert_eq!(sim.init_value, Value::from("r"));
    sim.set_init_values(4, &way(&[
        ("root/b/c", Value::from(1)),
        ("root/a", Value::from(2)),
        ("root/a", Value::from(3)),
        ("root/zzz", Value::from(4)),
    ]));
    assert_eq!(sim.init_value, Value::from("r"));
    assert_eq!(sim.sub_simulators[0].init_value, Value::from(2));
    assert_eq!(sim.sub_simulators[1].init_value, Value::from("b"));
    assert_eq!(sim.sub_simulators[1].sub_simulators[0].init_value, Value::from(1));
    assert_eq!(sim.variant, 4);
    assert_eq!(sim.sub_simulators[1].sub_simulators[0].variant, 4);
}
