use calepinage::calepine;
use calepinage::CalepinageError;
use calepinage::CalepineStep;
use calepinage::Deck;
use calepinage::Plank;
use calepinage::PlankHeap;

#[test]
fn plank_construction_respects_the_length_bound() {
    assert!(Plank::new(10001).is_err());
    assert_eq!(
        Plank::new(10001),
        Err("max length of plank is 10000".to_string())
    );
    assert_eq!(Plank::new(10000), Ok(Plank { length: 10000 }));
}

#[test]
fn deck_construction_rejects_zero_dimensions_and_overlong_decks() {
    assert_eq!(
        Deck::new(0, 5),
        Err("a deck can't have any zero dimension".to_string())
    );
    assert_eq!(
        Deck::new(5, 0),
        Err("a deck can't have any zero dimension".to_string())
    );
    assert_eq!(
        Deck::new(1_000_001, 1),
        Err("max length of deck is 1000000".to_string())
    );
    let deck = Deck::new(1_000_000, 2).unwrap();
    assert_eq!(deck.length, 1_000_000);
    assert_eq!(deck.width, 2);
}

#[test]
fn from_planks_totals_the_plank_lengths() {
    let heap = PlankHeap::from_planks(vec![
        Plank { length: 1 },
        Plank { length: 2 },
        Plank { length: 3 },
    ]);
    assert_eq!(heap.total_length, 6);
    assert_eq!(heap.planks.len(), 3);
}

#[test]
fn add_accumulates_count_and_total_length() {
    let heap = PlankHeap::new().add(2, 10).add(3, 2);
    assert_eq!(heap.total_length, 26);
    assert_eq!(heap.planks.len(), 5);
    assert_eq!(heap.to_string(), "10, 10, 2, 2, 2".to_string());
}

#[test]
fn heap_to_string_renders_multi_digit_lengths() {
    let heap = PlankHeap::from_planks(vec![Plank { length: 123 }, Plank { length: 45 }]);
    assert_eq!(heap.to_string(), "123, 45".to_string());
    let single = PlankHeap::from_planks(vec![Plank { length: 10000 }]);
    assert_eq!(single.to_string(), "10000".to_string());
    assert_eq!(PlankHeap::new().to_string(), "".to_string());
}

#[test]
fn step_to_string_renders_a_stashed_plank() {
    let step = CalepineStep {
        remaining: PlankHeap::new(),
        selected: PlankHeap::new(),
        stash: Some(Plank { length: 7 }),
    };
    assert_eq!(
        step.to_string(),
        "remaining = [], selected = [], stash = Some(Plank { length: 7 })".to_string()
    );
}

#[test]
fn a_completed_layout_fills_every_row_and_staggers_the_seams() {
    let heap = PlankHeap::from_planks(vec![
        Plank { length: 6 },
        Plank { length: 4 },
        Plank { length: 4 },
        Plank { length: 6 },
    ]);
    let deck = Deck::new(10, 2).unwrap();
    let result = calepine(heap, deck).unwrap();
    assert_eq!(result.to_string(), "Calepinage([6, 4], [4, 6])".to_string());
    let lines = &result.0;
    assert_eq!(lines.len(), 2);
    for line in lines.iter() {
        let total: usize = line.0.iter().map(|p| p.length).sum();
        assert!(total >= 10);
    }
    let first: Vec<usize> = lines[0].compute_junction().iter().map(|j| j.0).collect();
    let second: Vec<usize> = lines[1].compute_junction().iter().map(|j| j.0).collect();
    for offset in second.iter() {
        assert!(!first.contains(offset));
    }
}

#[test]
fn a_row_that_cannot_be_filled_with_an_empty_heap_is_not_enough_planks() {
    let heap = PlankHeap::from_planks(vec![Plank { length: 5 }, Plank { length: 5 }]);
    let deck = Deck::new(10, 2).unwrap();
    assert_eq!(
        calepine(heap, deck),
        Err(CalepinageError::NotEnoughPlanks)
    );
}

#[test]
fn an_empty_heap_cannot_fill_any_deck() {
    let heap = PlankHeap::new();
    let deck = Deck::new(1, 1).unwrap();
    assert_eq!(
        calepine(heap, deck),
        Err(CalepinageError::NotEnoughPlanks)
    );
}
