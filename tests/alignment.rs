use chimera_text::align::{get_main_chapter_indices, longest_run};
use chimera_text::data::Chapter;

fn chapter(title: &str) -> Chapter {
    Chapter { title: title.to_string(), heading_html: format!("<h1>{title}</h1>"), subtitle: None, paragraphs: vec![] }
}

#[test]
fn longest_run_beats_shorter_earlier_run() {
    let ords = vec![Some(1), Some(2), Some(3), Some(7), Some(8), Some(9), Some(10), Some(2)];
    assert_eq!(longest_run(&ords), (3, 6));
}

#[test]
fn equal_runs_prefer_the_earliest() {
    let ords = vec![Some(1), Some(2), Some(3), Some(9), Some(10), Some(11)];
    assert_eq!(longest_run(&ords), (0, 2));
    let ords = vec![None, Some(4), Some(5), None, Some(1), Some(2)];
    assert_eq!(longest_run(&ords), (1, 2));
}

#[test]
fn no_numbers_gives_the_whole_book() {
    let ords: Vec<Option<i32>> = vec![None, None, None, None];
    assert_eq!(longest_run(&ords), (0, 3));
    let ords = vec![Some(5), Some(3), Some(5)];
    assert_eq!(longest_run(&ords), (0, 2));
    assert_eq!(longest_run(&vec![Some(1)]), (0, 0));
    assert_eq!(longest_run(&vec![]), (0, 0));
}

#[test]
fn run_does_not_wrap_at_the_largest_number() {
    let ords = vec![Some(i32::MAX), Some(i32::MIN), Some(4), Some(5)];
    assert_eq!(longest_run(&ords), (2, 3));
}

#[test]
fn main_chapters_skip_front_and_back_matter() {
    let chapters = vec![
        chapter("Preface"),
        chapter("Chapter 1"),
        chapter("Chapter II"),
        chapter("Chapter 3"),
        chapter("Afterword"),
    ];
    assert_eq!(get_main_chapter_indices(&chapters), (1, 3));
}
