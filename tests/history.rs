use rpn_calc::error::ErrorCode;
use rpn_calc::log::{judge_success_failed, History, Solution, SuccessOrFailed, Timestamp};
use rpn_calc::store::{add_csv_column, add_csv_line, header, header_is_current, to_csv_path};

fn sample_time() -> Timestamp {
    Timestamp { year: 2024, month: 3, day: 5, hour: 7, minute: 8, second: 9 }
}

fn record(formula: &str, solution: Solution) -> History {
    History {
        date: sample_time(),
        success_or_failed: judge_success_failed(&solution),
        formula: formula.to_string(),
        solution,
    }
}

#[test]
fn timestamps_are_zero_padded() {
    assert_eq!(sample_time().to_text(), "2024-03-05 07:08:09");
    let early = Timestamp { year: 12, month: 11, day: 30, hour: 23, minute: 59, second: 0 };
    assert_eq!(early.to_text(), "0012-11-30 23:59:00");
    let before_zero = Timestamp { year: -5, month: 1, day: 1, hour: 0, minute: 0, second: 0 };
    assert_eq!(before_zero.to_text(), "-0005-01-01 00:00:00");
    let far = Timestamp { year: 12345, month: 1, day: 1, hour: 0, minute: 0, second: 0 };
    assert_eq!(far.to_text(), "+12345-01-01 00:00:00");
}

#[test]
fn timestamps_know_their_ranges() {
    assert!(sample_time().is_valid());
    assert!(!Timestamp { year: 2024, month: 13, day: 1, hour: 0, minute: 0, second: 0 }.is_valid());
    assert!(!Timestamp { year: 2024, month: 1, day: 0, hour: 0, minute: 0, second: 0 }.is_valid());
    assert!(!Timestamp { year: 2024, month: 1, day: 1, hour: 24, minute: 0, second: 0 }.is_valid());
    assert!(!Timestamp { year: 2024, month: 1, day: 1, hour: 0, minute: 60, second: 0 }.is_valid());
    assert!(!Timestamp { year: 2024, month: 1, day: 1, hour: 0, minute: 0, second: 60 }.is_valid());
}

#[test]
fn classifications_follow_the_outcome() {
    assert_eq!(judge_success_failed(&Solution::Success("3".to_string())), SuccessOrFailed::Success);
    assert_eq!(
        judge_success_failed(&Solution::Failed(ErrorCode::NotComplete)),
        SuccessOrFailed::Failed
    );
    assert_eq!(SuccessOrFailed::Success.text(), "success");
    assert_eq!(SuccessOrFailed::Failed.text(), "failed");
}

#[test]
fn records_become_comma_separated_lines() {
    let ok = record("1 2 +", Solution::Success("3".to_string()));
    assert_eq!(ok.to_line(), "2024-03-05 07:08:09,success,1 2 +,3\n");
    let failed = record("1 +", Solution::Failed(ErrorCode::InsufficientOperand));
    assert_eq!(failed.to_line(), "2024-03-05 07:08:09,failed,1 +,被演算子(数値)が不足しています。\n");
    let backslash = record("1\\2", Solution::Failed(ErrorCode::NoncalculableCharacter));
    assert!(backslash.to_line().contains(",1\\2,"));
    let odd = record("1,2\\3\n\"", Solution::Success("a,b".to_string()));
    assert_eq!(odd.to_line(), "2024-03-05 07:08:09,success,\"1,2\\\\3\\n\"\"\",\"a,b\"\n");
    let quoted_start = record("\"x", Solution::Success("3".to_string()));
    assert_eq!(quoted_start.to_line(), "2024-03-05 07:08:09,success,\"\"\"x\",3\n");
    let inner_quote = record("x\"y", Solution::Success("3".to_string()));
    assert_eq!(inner_quote.to_line(), "2024-03-05 07:08:09,success,x\"y,3\n");
}

/// Splits a row into its fields: a field that begins with a double quote is
/// quoted, in which a doubled double quote stands for one and a backslash
/// takes the next character literally (`n` for a line end).
fn parse_row(row: &str) -> Vec<String> {
    let chars: Vec<char> = row.chars().collect();
    let mut fields = Vec::new();
    let mut i = 0;
    loop {
        let mut cur = String::new();
        if i < chars.len() && chars[i] == '"' {
            i += 1;
            while i < chars.len() {
                match chars[i] {
                    '"' if i + 1 < chars.len() && chars[i + 1] == '"' => {
                        cur.push('"');
                        i += 2;
                    }
                    '"' => {
                        i += 1;
                        break;
                    }
                    '\\' if i + 1 < chars.len() => {
                        cur.push(if chars[i + 1] == 'n' { '\n' } else { chars[i + 1] });
                        i += 2;
                    }
                    c => {
                        cur.push(c);
                        i += 1;
                    }
                }
            }
        }
        while i < chars.len() && chars[i] != ',' {
            cur.push(chars[i]);
            i += 1;
        }
        fields.push(cur);
        if i >= chars.len() {
            return fields;
        }
        i += 1;
    }
}

#[test]
fn header_is_written_into_a_new_store() {
    assert_eq!(header(), "日付,成否,式,結果");
    assert!(!header_is_current(""));
    assert_eq!(add_csv_column(""), "日付,成否,式,結果\n");
}

#[test]
fn a_divergent_header_is_prepended_to() {
    let old = "date,result\nx,y\n";
    assert!(!header_is_current(old));
    assert_eq!(add_csv_column(old), "日付,成否,式,結果\ndate,result\nx,y\n");
    assert!(!header_is_current("日付,成否,式,結果,extra\n"));
}

#[test]
fn header_reconciliation_is_idempotent() {
    for store in ["", "a,b\n", "日付,成否,式,結果\nrow\n", "日付,成否,式,結果"] {
        let once = add_csv_column(store);
        assert!(header_is_current(&once));
        let twice = add_csv_column(&once);
        assert_eq!(once, twice);
    }
}

#[test]
fn appended_record_is_read_back_from_the_last_row() {
    let records = [
        (record("2 5 ^", Solution::Success("32".to_string())), "success", "2 5 ^", "32"),
        (record("\"1\\2", Solution::Success("x,\"y".to_string())), "success", "\"1\\2", "x,\"y"),
        (
            record("1,2\\n\"\n", Solution::Failed(ErrorCode::NoncalculableCharacter)),
            "failed",
            "1,2\\n\"\n",
            "計算不能な文字が含まれています。",
        ),
    ];
    for (h, class, formula, result) in records.iter() {
        for store in ["", "日付,成否,式,結果\n", "日付,成否,式,結果\nunterminated"] {
            let mut content = add_csv_column(store);
            content.push_str(&add_csv_line(&content, h));
            assert!(content.ends_with('\n'));
            let last = content[..content.len() - 1].rsplit('\n').next().unwrap();
            let fields = parse_row(last);
            assert_eq!(fields, vec!["2024-03-05 07:08:09", *class, *formula, *result]);
        }
    }
}

#[test]
fn unterminated_rows_are_closed_before_appending() {
    let h = record("1 +", Solution::Failed(ErrorCode::InsufficientOperand));
    assert_eq!(add_csv_line("x", &h), format!("\n{}", h.to_line()));
    assert_eq!(add_csv_line("x\n", &h), h.to_line());
    assert_eq!(add_csv_line("", &h), h.to_line());
}

#[test]
fn store_path_joins_the_directory() {
    assert_eq!(to_csv_path("/opt/calc"), "/opt/calc/history.csv");
    assert_eq!(to_csv_path("/opt/calc/"), "/opt/calc/history.csv");
    assert_eq!(to_csv_path(""), "history.csv");
}
