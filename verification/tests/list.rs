use egui_detail_view::entry::{collect_sort_keys, sort_by_field};
use egui_detail_view::list::DEFAULT_ROW_HEIGHT;
use egui_detail_view::{
    DetailList, DetailListEntry, DetailListState, FieldConfig, InvalidFieldConfig, SortDirection,
    SortKey,
};

#[derive(Clone, Debug, PartialEq)]
struct Track {
    title: String,
    id: usize,
}

impl DetailListEntry for Track {
    fn get_field_entry(&self, title: &str) -> Option<String> {
        if title == "title" {
            Some(self.title.clone())
        } else if title == "genre" {
            Some(String::from("Electro"))
        } else if title == "date" {
            Some(String::from("1993"))
        } else {
            None
        }
    }

    fn write_field(&mut self, title: &str, input_value: String) -> bool {
        if title == "title" {
            self.title = input_value;
            true
        } else {
            false
        }
    }

    fn sort_key(&self, title: &str) -> SortKey {
        if title == "title" {
            SortKey::Value(self.title.as_bytes().to_vec())
        } else {
            SortKey::Absent
        }
    }
}

fn tracks(titles: &[&str]) -> Vec<Track> {
    titles.iter().enumerate().map(|(id, t)| Track { title: t.to_string(), id }).collect()
}

fn ids(rows: &[Track]) -> Vec<usize> {
    rows.iter().map(|t| t.id).collect()
}

fn sample_fields() -> Vec<FieldConfig> {
    vec![
        "title".into(),
        FieldConfig {
            title: String::from("t"),
            editable: false,
            sortable: false,
            fixed_width: Some(30.0f32.to_bits()),
            sort_enabled: false,
        },
        "artist".into(),
        "date".into(),
        "genre".into(),
    ]
}

#[test]
fn collect_sort_keys_asks_every_row() {
    let rows = tracks(&["Foo", "Bar"]);
    assert_eq!(
        collect_sort_keys(&rows, "title"),
        vec![SortKey::Value(b"Foo".to_vec()), SortKey::Value(b"Bar".to_vec())]
    );
    assert_eq!(collect_sort_keys(&rows, "artist"), vec![SortKey::Absent, SortKey::Absent]);
    assert_eq!(collect_sort_keys(&Vec::<Track>::new(), "title"), vec![]);
}

#[test]
fn sort_by_field_sorts_by_the_keys_of_that_field() {
    let mut rows = tracks(&["Foo", "Bar", "Foo"]);
    sort_by_field(&mut rows, "title", false);
    assert_eq!(ids(&rows), vec![1, 0, 2]);
    sort_by_field(&mut rows, "title", true);
    assert_eq!(ids(&rows), vec![0, 2, 1]);
}

#[test]
fn sort_by_field_without_keys_leaves_the_rows_in_place() {
    let mut rows = tracks(&["Foo", "Bar", "Foo"]);
    sort_by_field(&mut rows, "genre", false);
    assert_eq!(ids(&rows), vec![0, 1, 2]);
    sort_by_field(&mut rows, "genre", true);
    assert_eq!(ids(&rows), vec![0, 1, 2]);
}

#[test]
fn new_list_has_the_default_row_height_and_no_size() {
    let mut rows = tracks(&["Foo"]);
    let mut state = DetailListState::new(sample_fields());
    let list = DetailList::new(&mut rows, &mut state);
    assert_eq!(f32::from_bits(list.row_height()), 20.0);
    assert_eq!(list.row_height(), DEFAULT_ROW_HEIGHT);
    assert_eq!(list.size(), None);
    assert_eq!(list.row_count(), 1);
    assert_eq!(list.column_count(), 5);
}

#[test]
fn with_size_and_row_height_set_them() {
    let mut rows = tracks(&["Foo"]);
    let mut state = DetailListState::new(sample_fields());
    let list = DetailList::new(&mut rows, &mut state)
        .with_size(egui::vec2(320.0, 200.0))
        .with_row_height(25.0f32.to_bits());
    assert_eq!(list.size(), Some(egui::vec2(320.0, 200.0)));
    assert_eq!(f32::from_bits(list.row_height()), 25.0);
    assert_eq!(list.row_count(), 1);
    assert_eq!(list.field(1).fixed_width.map(f32::from_bits), Some(30.0));
}

#[test]
fn clicking_the_title_header_sorts_and_reverses() {
    let mut rows = tracks(&["Foo", "Bar", "Foo"]);
    let mut state = DetailListState::new(sample_fields());
    {
        let mut list = DetailList::new(&mut rows, &mut state);
        list.click_header(0);
    }
    assert_eq!(ids(&rows), vec![1, 0, 2]);
    assert_eq!(state.sorted_by(), Some("title".to_string()));
    assert!(!state.reverse_sort());
    {
        let mut list = DetailList::new(&mut rows, &mut state);
        list.click_header(0);
    }
    assert_eq!(ids(&rows), vec![0, 2, 1]);
    assert!(state.reverse_sort());
    {
        let mut list = DetailList::new(&mut rows, &mut state);
        list.click_header(0);
    }
    assert_eq!(ids(&rows), vec![1, 0, 2]);
    assert!(!state.reverse_sort());
}

#[test]
fn clicking_a_header_that_does_not_sort_leaves_the_rows() {
    let mut rows = tracks(&["Foo", "Bar", "Foo"]);
    let mut state = DetailListState::new(sample_fields());
    let mut list = DetailList::new(&mut rows, &mut state);
    list.click_header(1);
    assert_eq!(list.header_cell(1).unwrap().arrow, None);
    drop(list);
    assert_eq!(ids(&rows), vec![0, 1, 2]);
    assert_eq!(state.sorted_by(), None);
    assert!(!state.reverse_sort());
}

#[test]
fn clicking_a_header_without_keys_keeps_the_order() {
    let mut rows = tracks(&["Foo", "Bar", "Foo"]);
    let mut state = DetailListState::new(sample_fields());
    let mut list = DetailList::new(&mut rows, &mut state);
    list.click_header(2);
    list.click_header(2);
    assert_eq!(list.header_cell(2).unwrap().arrow, Some(SortDirection::Descending));
    drop(list);
    assert_eq!(ids(&rows), vec![0, 1, 2]);
    assert_eq!(state.sorted_by(), Some("artist".to_string()));
}

#[test]
fn selection_goes_by_position_across_a_sort() {
    let mut rows = tracks(&["Foo", "Bar", "Foo"]);
    let mut state = DetailListState::new(sample_fields());
    let mut list = DetailList::new(&mut rows, &mut state);
    list.click_row(0, false);
    list.click_header(0);
    assert!(list.is_selected(0));
    assert_eq!(list.cell_text(0, 0), Some("Bar".to_string()));
}

#[test]
fn cell_text_is_what_the_entry_gives() {
    let mut rows = tracks(&["Foo", "Bar"]);
    let mut state = DetailListState::new(sample_fields());
    let list = DetailList::new(&mut rows, &mut state);
    assert_eq!(list.cell_text(0, 0), Some("Foo".to_string()));
    assert_eq!(list.cell_text(1, 0), Some("Bar".to_string()));
    assert_eq!(list.cell_text(1, 1), None);
    assert_eq!(list.cell_text(0, 2), None);
    assert_eq!(list.cell_text(0, 3), Some("1993".to_string()));
    assert_eq!(list.cell_text(1, 4), Some("Electro".to_string()));
}

#[test]
fn list_header_cell_fails_on_an_invalid_column() {
    let mut rows = tracks(&["Foo"]);
    let mut fields = sample_fields();
    fields[3].sortable = false;
    let mut state = DetailListState::new(fields);
    let list = DetailList::new(&mut rows, &mut state);
    assert_eq!(list.header_cell(0).unwrap().title, "title");
    assert_eq!(list.header_cell(3).unwrap_err(), InvalidFieldConfig { column: 3 });
    assert_eq!(list.header_cell(3).unwrap_err().message(), "invalid field configuration");
}

#[test]
fn list_clicks_on_rows_change_the_selection() {
    let mut rows = tracks(&["a", "b", "c", "d", "e"]);
    let mut state = DetailListState::new(sample_fields());
    let mut list = DetailList::new(&mut rows, &mut state);
    list.click_row(0, false);
    list.click_row(2, true);
    list.click_row(4, true);
    list.click_row(2, true);
    assert!(list.is_selected(0) && list.is_selected(2) && list.is_selected(4));
    assert!(!list.is_selected(1) && !list.is_selected(3));
    drop(list);
    assert_eq!(state.selected_count(), 3);
    assert_eq!(ids(&rows), vec![0, 1, 2, 3, 4]);
}

#[test]
fn write_field_reports_success() {
    let mut track = Track { title: "Foo".to_string(), id: 0 };
    assert!(track.write_field("title", "Baz".to_string()));
    assert_eq!(track.get_field_entry("title"), Some("Baz".to_string()));
    assert!(!track.write_field("genre", "Jazz".to_string()));
}
