use qquotes::config::{default_data_path, default_log_path, resolve_config, term_log_level, LogLevel};
use qquotes::format::{author_max_width, format_table, id_max_width, wrap_width};
use qquotes::quote::Quote;
use qquotes::repository::Repository;
use qquotes::store::Record;

fn record(id: &str, author: &str, text: &str) -> Record {
    Record { id: id.to_string(), quote: Quote { author: author.to_string(), quote: text.to_string() } }
}

#[test]
fn author_width_is_longest_author() {
    let records = vec![record("id-1", "A", "x"), record("id-2", "Bob", "y")];
    assert_eq!(author_max_width(&records), 3);
    assert_eq!(wrap_width(80, 0, 3, false), 72);
}

#[test]
fn id_width_is_longest_id() {
    let records = vec![record("ab", "A", "x"), record("abcd", "B", "y")];
    assert_eq!(id_max_width(&records), 4);
    assert_eq!(id_max_width(&Vec::new()), 0);
    assert_eq!(author_max_width(&Vec::new()), 0);
}

#[test]
fn author_width_counts_characters() {
    let records = vec![record("i", "héllo", "x")];
    assert_eq!(author_max_width(&records), 5);
}

#[test]
fn wrap_width_is_clamped_to_one() {
    assert_eq!(wrap_width(5, 0, 10, false), 1);
    assert_eq!(wrap_width(8, 0, 3, false), 1);
    assert_eq!(wrap_width(10, 20, 30, true), 1);
    assert_eq!(wrap_width(0, 0, 0, false), 1);
    assert_eq!(wrap_width(20, 6, 6, true), 1);
    assert_eq!(wrap_width(21, 6, 6, true), 1);
    assert_eq!(wrap_width(22, 6, 6, true), 2);
}

#[test]
fn quotes_are_wrapped_to_the_computed_width() {
    let records = vec![record("i", "", "a b")];
    let table = format_table(&records, false, 6);
    assert_eq!(table.rows.len(), 1);
    assert_eq!(table.rows[0][1], "a\nb");
}

#[test]
fn short_table_has_two_columns() {
    let mut repo = Repository::new();
    repo.save_quote(Quote {
        author: "Twain".to_string(),
        quote: "Lies, damned lies, and statistics.".to_string(),
    })
    .unwrap();
    let quotes = repo.get_quotes();
    let table = format_table(&quotes, false, 80);
    assert_eq!(table.header, vec!["Author".to_string(), "Quote".to_string()]);
    assert_eq!(table.rows.len(), 1);
    assert_eq!(table.rows[0].len(), 2);
    assert_eq!(table.rows[0][0], "Twain");
    assert_eq!(table.rows[0][1], "Lies, damned lies, and statistics.");
}

#[test]
fn long_table_leads_with_the_id() {
    let mut repo = Repository::new();
    let saved = repo.save_quote(Quote {
        author: "Twain".to_string(),
        quote: "Lies, damned lies, and statistics.".to_string(),
    })
    .unwrap();
    let quotes = repo.get_quotes();
    let table = format_table(&quotes, true, 120);
    assert_eq!(
        table.header,
        vec!["QUOTE_ID".to_string(), "Author".to_string(), "Quote".to_string()]
    );
    assert_eq!(table.rows.len(), 1);
    assert_eq!(table.rows[0].len(), 3);
    assert_eq!(table.rows[0][0], saved.id);
    assert_eq!(table.rows[0][1], "Twain");
    assert_eq!(table.rows[0][2], "Lies, damned lies, and statistics.");
}

#[test]
fn table_rows_follow_listing_order() {
    let records = vec![
        record("a", "First", "one"),
        record("b", "Second", "two"),
        record("c", "Third", "three"),
    ];
    let table = format_table(&records, false, 80);
    assert_eq!(table.rows.len(), 3);
    assert_eq!(table.rows[0][0], "First");
    assert_eq!(table.rows[1][0], "Second");
    assert_eq!(table.rows[2][0], "Third");
}

#[test]
fn config_keys_fall_back_individually() {
    let both = resolve_config(None, None);
    assert_eq!(both.log_path, "~/qquotes.log");
    assert_eq!(both.data_path, "~/qquotes_data.json");
    assert_eq!(default_log_path(), "~/qquotes.log");
    assert_eq!(default_data_path(), "~/qquotes_data.json");

    let log_only = resolve_config(Some("/tmp/a.log".to_string()), None);
    assert_eq!(log_only.log_path, "/tmp/a.log");
    assert_eq!(log_only.data_path, "~/qquotes_data.json");

    let data_only = resolve_config(None, Some("/tmp/d.json".to_string()));
    assert_eq!(data_only.log_path, "~/qquotes.log");
    assert_eq!(data_only.data_path, "/tmp/d.json");
}

#[test]
fn verbosity_selects_the_log_level() {
    assert_eq!(term_log_level(0), LogLevel::Error);
    assert_eq!(term_log_level(1), LogLevel::Warn);
    assert_eq!(term_log_level(2), LogLevel::Trace);
    assert_eq!(term_log_level(7), LogLevel::Trace);
}
