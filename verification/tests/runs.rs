//! Plans, consent and pictures.
use automaton::plan::LARGE_BUFFER_THRESHOLD;
use automaton::row::words_for;
use automaton::{is_white_space, is_yes, render, simulate, Picture, Plan, PlanError};

/// Row `r` of a picture as text, `#` for black.
fn line(picture: &Picture, r: usize) -> String {
    let width = picture.width as usize;
    picture.pixels[r * width..(r + 1) * width]
        .iter()
        .map(|&p| if p == 0x00 { '#' } else { '.' })
        .collect()
}

#[test]
fn rule_90_draws_a_triangle() {
    let plan = Plan::new(4, None).unwrap();
    let picture = render(90, &plan);
    assert_eq!((picture.width, picture.height), (9, 5));
    let lines: Vec<String> = (0..5).map(|r| line(&picture, r)).collect();
    assert_eq!(
        lines,
        ["....#....", "...#.#...", "..#...#..", ".#.#.#.#.", "#.......#"]
    );
}

#[test]
fn rule_30_is_cut_off_at_the_edges() {
    let plan = Plan::new(3, Some(4)).unwrap();
    let picture = render(30, &plan);
    let lines: Vec<String> = (0..4).map(|r| line(&picture, r)).collect();
    assert_eq!(lines, ["..#.", ".###", "##..", "#.#."]);
}

#[test]
fn rule_255_fills_the_row_at_once() {
    let plan = Plan::new(2, Some(5)).unwrap();
    let picture = render(255, &plan);
    let lines: Vec<String> = (0..3).map(|r| line(&picture, r)).collect();
    assert_eq!(lines, ["..#..", "#####", "#####"]);
}

#[test]
fn rule_0_leaves_one_pixel() {
    let plan = Plan::new(3, Some(65)).unwrap();
    let pixels = simulate(0, &plan);
    assert_eq!(pixels.len(), 65 * 4);
    for (k, &p) in pixels.iter().enumerate() {
        assert_eq!(p, if k == 32 { 0x00 } else { 0xFF });
    }
}

#[test]
fn a_run_without_steps_is_the_initial_row() {
    let plan = Plan::new(0, None).unwrap();
    assert_eq!(plan, Plan { steps: 0, width: 1, height: 1 });
    assert_eq!(simulate(30, &plan), [0x00]);
}

/// At the default width a pattern of an even rule is the same as with room to spare.
#[test]
fn the_default_width_holds_the_pattern() {
    let steps = 40u32;
    for rule in (0..=254u8).step_by(2) {
        let tight = render(rule, &Plan::new(steps, None).unwrap());
        let wide = render(rule, &Plan::new(steps, Some(2 * steps + 101)).unwrap());
        for r in 0..=steps as usize {
            let shown = line(&wide, r);
            assert_eq!(line(&tight, r), shown[50..50 + 81]);
            let margin = 50 + 40 - r;
            assert!(shown[..margin].chars().all(|c| c == '.'));
            assert!(shown[shown.len() - margin..].chars().all(|c| c == '.'));
        }
    }
}

/// What the edges do reaches one cell further per generation, under every rule.
#[test]
fn edges_act_one_cell_per_generation() {
    for rule in 0..=255u8 {
        let narrow = render(rule, &Plan::new(10, Some(21)).unwrap());
        let wide = render(rule, &Plan::new(10, Some(121)).unwrap());
        for n in 1..=10usize {
            let inner = n - 1..21 + 1 - n;
            assert_eq!(
                line(&narrow, n)[inner.clone()],
                line(&wide, n)[50 + inner.start..50 + inner.end]
            );
        }
    }
}

#[test]
fn longer_runs_extend_shorter_ones() {
    let short = simulate(110, &Plan::new(5, Some(70)).unwrap());
    let long = simulate(110, &Plan::new(20, Some(70)).unwrap());
    assert_eq!(short[..], long[..short.len()]);
}

#[test]
fn pictures_need_enough_pixels() {
    let picture = Picture::from_raw(3, 2, vec![1, 2, 3, 4, 5, 6]).unwrap();
    assert_eq!(picture, Picture { width: 3, height: 2, pixels: vec![1, 2, 3, 4, 5, 6] });
    assert!(Picture::from_raw(3, 2, vec![1, 2, 3, 4, 5]).is_none());
    assert_eq!(Picture::from_raw(1, 2, vec![1, 2, 3]).unwrap().pixels, [1, 2, 3]);
    assert!(Picture::from_raw(0, 7, vec![]).is_some());
    assert!(Picture::from_raw(u32::MAX, u32::MAX, vec![0]).is_none());
}

#[test]
fn plans_default_to_the_width_of_the_triangle() {
    assert_eq!(Plan::new(200, None), Ok(Plan { steps: 200, width: 401, height: 201 }));
    assert_eq!(Plan::new(200, Some(7)), Ok(Plan { steps: 200, width: 7, height: 201 }));
    let most = u32::MAX / 2;
    assert_eq!(Plan::new(most, None), Ok(Plan { steps: most, width: u32::MAX, height: most + 1 }));
}

#[test]
fn plans_that_overflow_are_refused() {
    assert_eq!(Plan::new(u32::MAX / 2 + 1, None), Err(PlanError::WidthOverflow));
    assert_eq!(Plan::new(u32::MAX, None), Err(PlanError::WidthOverflow));
    assert_eq!(Plan::new(u32::MAX, Some(1)), Err(PlanError::HeightOverflow));
    assert_eq!(Plan::new(u32::MAX - 1, Some(1)).unwrap().height, u32::MAX);
    assert_eq!(Plan::new(10, Some(0)), Err(PlanError::ZeroWidth));
    assert_eq!(Plan::new(u32::MAX, Some(0)), Err(PlanError::ZeroWidth));
}

#[test]
fn large_runs_need_a_confirmation() {
    assert_eq!(LARGE_BUFFER_THRESHOLD, 209_715_200);

    let usual = Plan::new(10_000, None).unwrap();
    assert_eq!(usual.pixels(), 20_001 * 10_001);
    assert!(!usual.needs_confirmation(false));

    let large = Plan::new(50_000, None).unwrap();
    assert_eq!(large.pixels(), 5_000_150_001);
    assert_eq!(large.megabytes(), 4768);
    assert!(large.needs_confirmation(false));
    assert!(!large.needs_confirmation(true));

    // Wide with few steps counts as well.
    assert!(Plan::new(0, Some(209_715_201)).unwrap().needs_confirmation(false));
    assert!(!Plan::new(0, Some(209_715_200)).unwrap().needs_confirmation(false));

    let largest = Plan::new(u32::MAX - 1, Some(u32::MAX)).unwrap();
    assert_eq!(largest.pixels(), u32::MAX as u64 * u32::MAX as u64);
}

#[test]
fn only_the_letter_y_is_a_yes() {
    for yes in ["y", "Y", "y\n", "Y\r\n", "  y\t", "\u{3000}y\u{a0}\n"] {
        assert!(is_yes(yes), "{:?}", yes);
    }
    for no in ["", "\n", "n\n", "yes\n", "y y", "yy", "\u{200b}y", "\u{ff59}", "y.", "\u{fd}"] {
        assert!(!is_yes(no), "{:?}", no);
    }
}

/// The answer is read as trimming it and comparing it with `y` would.
#[test]
fn answers_are_trimmed() {
    let parts = ["", " ", "\n", "\u{85}", "y", "Y", "n", "\u{e9}"];
    for a in parts {
        for b in parts {
            for c in parts {
                let answer = format!("{}{}{}", a, b, c);
                assert_eq!(is_yes(&answer), answer.trim().eq_ignore_ascii_case("y"), "{:?}", answer);
            }
        }
    }
}

#[test]
fn white_space_is_that_of_unicode() {
    for c in '\0'..=char::MAX {
        assert_eq!(is_white_space(c), c.is_whitespace(), "{:?}", c);
    }
}

#[test]
fn words_hold_64_cells() {
    assert_eq!([0, 1, 63, 64, 65, 128, 129].map(words_for), [0, 1, 1, 1, 2, 2, 3]);
    assert_eq!(words_for(usize::MAX), usize::MAX / 64 + 1);
}
