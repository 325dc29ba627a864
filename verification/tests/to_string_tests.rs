use calepinage::calepine;
use calepinage::Calepinage;
use calepinage::CalepinageError;
use calepinage::CalepineStep;
use calepinage::Deck;
use calepinage::Line;
use calepinage::Plank;
use calepinage::PlankHeap;

#[test]
fn test_only_unusable_planks_remaining_to_string() {
    let deck = Deck {
        length: 10,
        width: 3,
    };
    let plank_heap = PlankHeap::from_planks(vec![
        Plank { length: 8 },
        Plank { length: 5 },
        Plank { length: 8 },
        Plank { length: 5 },
        Plank { length: 8 },
        Plank { length: 5 },
    ]);
    let result = calepine(plank_heap, deck);
    assert_eq!(
        result,
        Err(CalepinageError::OnlyUnusablePlanksRemaining(
            "remaining = [8, 8, 5, 5, 5], selected = [8], stash = None".to_string()
        ))
    );
}

#[test]
fn test_step_to_string() {
    let step = CalepineStep {
        remaining: PlankHeap::from_planks(vec![
            Plank { length: 8 },
            Plank { length: 8 },
            Plank { length: 5 },
            Plank { length: 5 },
            Plank { length: 5 },
        ]),
        selected: PlankHeap::from_planks(vec![Plank { length: 8 }]),
        stash: None,
    };
    assert_eq!(
        step.to_string(),
        "remaining = [8, 8, 5, 5, 5], selected = [8], stash = None".to_string()
    );
}

#[test]
fn test_line_to_string() {
    let line = Line::default()
        .with_plank(Plank { length: 10 })
        .with_plank(Plank { length: 2 });
    assert_eq!(line.to_string(), "[10, 2]".to_string());
}

#[test]
fn test_calepine_to_string() {
    let calepinage = Calepinage::default()
        .with_line(
            Line::default()
                .with_plank(Plank { length: 10 })
                .with_plank(Plank { length: 2 }),
        )
        .with_line(
            Line::default()
                .with_plank(Plank { length: 2 })
                .with_plank(Plank { length: 10 }),
        )
        .with_line(
            Line::default()
                .with_plank(Plank { length: 10 })
                .with_plank(Plank { length: 2 }),
        );

    assert_eq!(
        calepinage.to_string(),
        "Calepinage([10, 2], [2, 10], [10, 2])".to_string()
    );
}
