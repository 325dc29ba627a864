use calepinage::Calepinage;
use calepinage::Junction;
use calepinage::Line;
use calepinage::Plank;

#[test]
fn empty_line_should_have_no_junction() {
    assert_eq!(Vec::<Junction>::new(), Line::default().compute_junction());
}

#[test]
fn single_plank_line_should_have_no_junction() {
    assert_eq!(
        Vec::<Junction>::new(),
        Line::default()
            .with_plank(Plank::new(1).unwrap())
            .compute_junction()
    );
}

#[test]
fn two_planks_line_should_have_one_junction() {
    assert_eq!(
        vec![Junction(3)],
        Line::default()
            .with_plank(Plank::new(3).unwrap())
            .with_plank(Plank::new(1).unwrap())
            .compute_junction()
    );
}

#[test]
fn should_build_line() {
    let actual = Line::default()
        .with_plank(Plank::new(2).unwrap())
        .with_plank(Plank::new(1).unwrap());

    let expected = Line(vec![Plank::new(2).unwrap(), Plank::new(1).unwrap()]);
    assert_eq!(expected, actual);
}

#[test]
fn should_use_macro() {
    let actual = Line::default().with_plank(Plank::new(2).unwrap());

    let expected = Line(vec![Plank::new(2).unwrap()]);
    assert_eq!(expected, actual);
}

#[test]
fn should_use_macro_with_2_planks() {
    let actual = Line::default()
        .with_plank(Plank::new(2).unwrap())
        .with_plank(Plank::new(1).unwrap());

    let expected = Line(vec![Plank::new(2).unwrap(), Plank::new(1).unwrap()]);
    assert_eq!(expected, actual);
}

#[test]
fn with_line_should_append_lines_in_order() {
    let calepinage = Calepinage::default()
        .with_line(Line::default().with_plank(Plank::new(1).unwrap()))
        .with_line(Line::default().with_plank(Plank::new(2).unwrap()));

    let Calepinage(lines) = calepinage;
    assert_eq!(
        &lines[0],
        &Line::default().with_plank(Plank::new(1).unwrap())
    );
    assert_eq!(
        &lines[1],
        &Line::default().with_plank(Plank::new(2).unwrap())
    );
}
