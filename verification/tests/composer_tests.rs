use steam_trade_watcher::composer::{account_message, compose_message};

fn names(list: &[&str]) -> Vec<String> {
    list.iter().map(|s| s.to_string()).collect()
}

#[test]
fn message_with_both_sections() {
    let text = compose_message("T1", &names(&["A", "B"]), &names(&["C"]));
    assert_eq!(
        text,
        "Trade ID: T1\n\n<b>Received:</b>\n- A\n- B\n\n<b>Given:</b>\n- C"
    );
}

#[test]
fn empty_sections_are_left_out() {
    assert_eq!(compose_message("T1", &names(&[]), &names(&[])), "Trade ID: T1");
    assert_eq!(
        compose_message("T1", &names(&["Test Item"]), &names(&[])),
        "Trade ID: T1\n\n<b>Received:</b>\n- Test Item"
    );
    assert_eq!(
        compose_message("T2", &names(&[]), &names(&["Key"])),
        "Trade ID: T2\n\n<b>Given:</b>\n- Key"
    );
}

#[test]
fn account_line_comes_first() {
    assert_eq!(
        account_message("Bot1", "Trade ID: T1"),
        "<b>Account: Bot1</b>\nTrade ID: T1"
    );
}
