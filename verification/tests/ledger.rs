use quantaxis_rs::errors::ErrorKind;
use quantaxis_rs::market_preset::{Preset, RATE_SCALE};
use quantaxis_rs::qaaccount::{Mode, QA_Account};
use quantaxis_rs::qaorder::{Direction, QAOrder};
use quantaxis_rs::qaposition::{margin_for, profit_for, Leg, QA_Position};

const T1: &str = "2020-01-20 22:10:00";
const T2: &str = "2020-01-21 09:05:00";

fn account(cash: i64) -> QA_Account {
    QA_Account::new("RustT01B2_RBL8", "test", "admin", cash, false, "backtest")
}

/// An account with RBL8 registered at 10% margin and a multiplier of 10.
fn rb_account(cash: i64) -> QA_Account {
    let mut acc = account(cash);
    acc.init_h("RBL8", Preset::new(1_000, 10).unwrap()).unwrap();
    acc
}

#[test]
fn test_new_account() {
    let acc = account(1_000_000);
    assert_eq!(acc.cash(), 1_000_000);
    assert_eq!(acc.init_cash(), 1_000_000);
    assert_eq!(acc.frozen_margin(), 0);
    assert_eq!(acc.realized_pnl(), 0);
    assert_eq!(acc.account_cookie(), "RustT01B2_RBL8");
    assert_eq!(acc.portfolio_cookie(), "test");
    assert_eq!(acc.user_cookie(), "admin");
    assert!(!acc.allow_t0());
    assert_eq!(acc.mode(), Mode::Backtest);
    assert!(acc.codes().is_empty());
}

#[test]
fn test_mode_of_environment() {
    assert_eq!(QA_Account::new("a", "p", "u", 0, true, "real").mode(), Mode::Real);
    assert_eq!(QA_Account::new("a", "p", "u", 0, true, "backtest").mode(), Mode::Backtest);
    assert_eq!(QA_Account::new("a", "p", "u", 0, true, "paper").mode(), Mode::Backtest);
    assert!(QA_Account::new("a", "p", "u", 0, true, "real").allow_t0());
}

#[test]
fn test_accessors_without_record() {
    let acc = account(1_000_000);
    assert_eq!(acc.get_volume_long("RBL8"), 0);
    assert_eq!(acc.get_volume_short("RBL8"), 0);
    assert_eq!(acc.get_open_price_long("RBL8"), 0);
    assert_eq!(acc.get_open_price_short("RBL8"), 0);
    assert_eq!(acc.get_position("RBL8"), None);
}

#[test]
fn test_buy_open_scenario() {
    let mut acc = rb_account(1_000_000);
    let frozen_before = acc.frozen_margin();
    let t = acc.buy_open("RBL8", 90, T1, 3500).unwrap();
    assert_eq!(acc.get_volume_long("RBL8"), 90);
    assert_eq!(acc.get_open_price_long("RBL8"), 3500);
    assert_eq!(acc.frozen_margin() - frozen_before, 90 * 3500 * 1_000 / 10_000);
    assert_eq!(acc.frozen_margin(), 31_500);
    assert_eq!(acc.cash(), 968_500);
    assert_eq!(acc.realized_pnl(), 0);
    assert_eq!(acc.get_volume_short("RBL8"), 0);
    assert_eq!(t.code, "RBL8");
    assert_eq!(t.datetime, T1);
    assert_eq!(t.direction, Direction::BuyOpen);
    assert_eq!(t.amount, 90);
    assert_eq!(t.price, 3500);
    assert_eq!(t.cash, 968_500);
    assert_eq!(t.money, 0);
}

#[test]
fn test_buy_open_on_plain_terms_creates_record() {
    let mut acc = account(1_000_000);
    acc.buy_open("RBL8", 90, T1, 3500).unwrap();
    assert_eq!(acc.get_volume_long("RBL8"), 90);
    assert_eq!(acc.get_open_price_long("RBL8"), 3500);
    assert_eq!(acc.frozen_margin(), 90 * 3500);
    assert_eq!(acc.cash(), 1_000_000 - 90 * 3500);
    let position = acc.get_position("RBL8").unwrap();
    assert_eq!(position.preset, Preset::default());
    assert_eq!(position.preset, Preset { margin_rate: RATE_SCALE, multiplier: 1 });
    assert_eq!(acc.codes(), &vec!["RBL8".to_string()]);
}

#[test]
fn test_sell_close_rejection_scenario() {
    let mut acc = rb_account(1_000_000);
    acc.buy_open("RBL8", 90, T1, 3500).unwrap();
    let before = acc.clone();
    assert_eq!(acc.sell_close("RBL8", 91, T2, 3600), Err(ErrorKind::InsufficientPosition));
    assert_eq!(acc, before);
    assert_eq!(acc.get_volume_long("RBL8"), 90);
    assert_eq!(acc.cash(), 968_500);
    assert_eq!(acc.frozen_margin(), 31_500);
    assert_eq!(acc.realized_pnl(), 0);
}

#[test]
fn test_round_trip_long() {
    let mut acc = rb_account(1_000_000);
    acc.buy_open("RBL8", 90, T1, 3500).unwrap();
    let t = acc.sell_close("RBL8", 90, T2, 3600).unwrap();
    assert_eq!(acc.realized_pnl(), (3600 - 3500) * 90 * 10);
    assert_eq!(acc.realized_pnl(), 90_000);
    assert_eq!(acc.get_volume_long("RBL8"), 0);
    assert_eq!(acc.get_open_price_long("RBL8"), 0);
    assert_eq!(acc.frozen_margin(), 0);
    assert_eq!(acc.cash(), 1_000_000);
    assert_eq!(t.direction, Direction::SellClose);
    assert_eq!(t.cash, 1_000_000);
    assert_eq!(t.money, 90_000);
    assert_eq!(
        acc.get_position("RBL8"),
        Some(QA_Position {
            preset: Preset { margin_rate: 1_000, multiplier: 10 },
            long: Leg { volume: 0, open_price: 0, margin: 0 },
            short: Leg { volume: 0, open_price: 0, margin: 0 },
        })
    );
}

#[test]
fn test_round_trip_short_with_loss() {
    let mut acc = rb_account(1_000_000);
    acc.sell_open("RBL8", 20, T1, 3500).unwrap();
    assert_eq!(acc.get_volume_short("RBL8"), 20);
    assert_eq!(acc.get_open_price_short("RBL8"), 3500);
    assert_eq!(acc.frozen_margin(), 7_000);
    acc.buy_close("RBL8", 20, T2, 3530).unwrap();
    assert_eq!(acc.realized_pnl(), (3500 - 3530) * 20 * 10);
    assert_eq!(acc.realized_pnl(), -6_000);
    assert_eq!(acc.get_volume_short("RBL8"), 0);
    assert_eq!(acc.get_open_price_short("RBL8"), 0);
    assert_eq!(acc.frozen_margin(), 0);
    assert_eq!(acc.cash(), 1_000_000);
}

#[test]
fn test_weighted_average_open_price() {
    let mut acc = rb_account(10_000_000);
    acc.buy_open("RBL8", 10, T1, 100).unwrap();
    acc.buy_open("RBL8", 30, T1, 200).unwrap();
    assert_eq!(acc.get_volume_long("RBL8"), 40);
    assert_eq!(acc.get_open_price_long("RBL8"), 175);
    assert_eq!(acc.frozen_margin(), 100 + 600);
    acc.sell_close("RBL8", 40, T2, 180).unwrap();
    assert_eq!(acc.realized_pnl(), (180 - 175) * 40 * 10);
}

#[test]
fn test_average_price_rounds_down() {
    let mut acc = rb_account(10_000_000);
    acc.sell_open("RBL8", 1, T1, 100).unwrap();
    acc.sell_open("RBL8", 2, T1, 101).unwrap();
    assert_eq!(acc.get_open_price_short("RBL8"), 100);
}

#[test]
fn test_partial_close_releases_share_of_margin() {
    let mut acc = account(1_000_000);
    acc.init_h("IF", Preset::new(10_000, 300).unwrap()).unwrap();
    acc.buy_open("IF", 3, T1, 1000).unwrap();
    acc.buy_open("IF", 1, T1, 0).unwrap();
    assert_eq!(acc.frozen_margin(), 3000);
    assert_eq!(acc.get_open_price_long("IF"), 750);
    acc.sell_close("IF", 1, T2, 750).unwrap();
    assert_eq!(acc.frozen_margin(), 2250);
    assert_eq!(acc.cash(), 1_000_000 - 2250);
    assert_eq!(acc.get_volume_long("IF"), 3);
    assert_eq!(acc.get_open_price_long("IF"), 750);
    assert_eq!(acc.realized_pnl(), 0);
    acc.sell_close("IF", 3, T2, 751).unwrap();
    assert_eq!(acc.frozen_margin(), 0);
    assert_eq!(acc.cash(), 1_000_000);
    assert_eq!(acc.realized_pnl(), 3 * 300);
}

#[test]
fn test_released_margin_rounds_down() {
    let mut acc = account(1_000_000);
    acc.buy_open("X", 3, T1, 333).unwrap();
    assert_eq!(acc.frozen_margin(), 999);
    acc.buy_open("X", 3, T1, 0).unwrap();
    assert_eq!(acc.get_volume_long("X"), 6);
    acc.sell_close("X", 4, T2, 400).unwrap();
    assert_eq!(acc.frozen_margin(), 999 - 666);
    acc.sell_close("X", 1, T2, 400).unwrap();
    assert_eq!(acc.frozen_margin(), 333 - 166);
    acc.sell_close("X", 1, T2, 400).unwrap();
    assert_eq!(acc.frozen_margin(), 0);
    assert_eq!(acc.cash(), 1_000_000);
}

#[test]
fn test_hedged_long_and_short() {
    let mut acc = rb_account(1_000_000);
    acc.buy_open("RBL8", 5, T1, 3500).unwrap();
    acc.sell_open("RBL8", 7, T1, 3600).unwrap();
    assert_eq!(acc.get_volume_long("RBL8"), 5);
    assert_eq!(acc.get_volume_short("RBL8"), 7);
    assert_eq!(acc.get_open_price_long("RBL8"), 3500);
    assert_eq!(acc.get_open_price_short("RBL8"), 3600);
    assert_eq!(acc.frozen_margin(), 1750 + 2520);
    acc.sell_close("RBL8", 5, T2, 3550).unwrap();
    assert_eq!(acc.get_volume_long("RBL8"), 0);
    assert_eq!(acc.get_volume_short("RBL8"), 7);
    assert_eq!(acc.get_open_price_short("RBL8"), 3600);
    assert_eq!(acc.frozen_margin(), 2520);
    assert_eq!(acc.realized_pnl(), 50 * 5 * 10);
}

#[test]
fn test_insufficient_funds_leaves_account_unchanged() {
    let mut acc = rb_account(31_499);
    let before = acc.clone();
    assert_eq!(acc.buy_open("RBL8", 90, T1, 3500), Err(ErrorKind::InsufficientFunds));
    assert_eq!(acc, before);
    assert_eq!(acc.sell_open("RBL8", 90, T1, 3500), Err(ErrorKind::InsufficientFunds));
    assert_eq!(acc, before);
    let mut exact = rb_account(31_500);
    assert!(exact.buy_open("RBL8", 90, T1, 3500).is_ok());
    assert_eq!(exact.cash(), 0);
}

#[test]
fn test_insufficient_funds_creates_no_record() {
    let mut acc = account(10);
    let before = acc.clone();
    assert_eq!(acc.buy_open("NEW", 1, T1, 11), Err(ErrorKind::InsufficientFunds));
    assert_eq!(acc, before);
    assert_eq!(acc.get_position("NEW"), None);
}

#[test]
fn test_insufficient_position() {
    let mut acc = rb_account(1_000_000);
    let before = acc.clone();
    assert_eq!(acc.sell_close("RBL8", 1, T1, 3500), Err(ErrorKind::InsufficientPosition));
    assert_eq!(acc.buy_close("RBL8", 1, T1, 3500), Err(ErrorKind::InsufficientPosition));
    assert_eq!(acc.buy_close("UNKNOWN", 1, T1, 3500), Err(ErrorKind::InsufficientPosition));
    assert_eq!(acc, before);
    acc.buy_open("RBL8", 2, T1, 3500).unwrap();
    let held = acc.clone();
    assert_eq!(acc.buy_close("RBL8", 1, T1, 3500), Err(ErrorKind::InsufficientPosition));
    assert_eq!(acc.sell_close("RBL8", 3, T1, 3500), Err(ErrorKind::InsufficientPosition));
    assert_eq!(acc, held);
}

#[test]
fn test_rejected_orders_leave_account_unchanged() {
    let mut acc = rb_account(1_000_000);
    acc.buy_open("RBL8", 2, T1, 3500).unwrap();
    acc.sell_open("RBL8", 2, T1, 3500).unwrap();
    let before = acc.clone();
    assert_eq!(acc.buy_open("RBL8", 0, T1, 3500), Err(ErrorKind::Rejected));
    assert_eq!(acc.buy_open("RBL8", -1, T1, 3500), Err(ErrorKind::Rejected));
    assert_eq!(acc.sell_open("RBL8", 1, T1, -1), Err(ErrorKind::Rejected));
    assert_eq!(acc.sell_close("RBL8", 0, T1, 3500), Err(ErrorKind::Rejected));
    assert_eq!(acc.sell_close("RBL8", -2, T1, 3500), Err(ErrorKind::Rejected));
    assert_eq!(acc.buy_close("RBL8", 1, T1, -3500), Err(ErrorKind::Rejected));
    assert_eq!(acc.buy_open("RBL8", i64::MAX, T1, 2), Err(ErrorKind::Rejected));
    assert_eq!(acc, before);
}

#[test]
fn test_rejected_when_volume_does_not_fit() {
    let mut acc = account(1_000_000);
    acc.buy_open("Z", i64::MAX - 1, T1, 0).unwrap();
    let before = acc.clone();
    assert_eq!(acc.buy_open("Z", 2, T1, 0), Err(ErrorKind::Rejected));
    assert_eq!(acc, before);
    assert!(acc.buy_open("Z", 1, T1, 0).is_ok());
    assert_eq!(acc.get_volume_long("Z"), i64::MAX);
}

#[test]
fn test_rejected_when_profit_does_not_fit() {
    let mut acc = account(0);
    acc.init_h("BIG", Preset::new(0, u32::MAX).unwrap()).unwrap();
    acc.buy_open("BIG", 1 << 20, T1, 0).unwrap();
    let before = acc.clone();
    assert_eq!(acc.sell_close("BIG", 1 << 20, T2, 1 << 40), Err(ErrorKind::Rejected));
    assert_eq!(acc, before);
    assert!(acc.sell_close("BIG", 1 << 20, T2, 1 << 10).is_ok());
    assert_eq!(acc.realized_pnl(), (1i64 << 30) * (u32::MAX as i64));
}

#[test]
fn test_rejected_when_total_profit_does_not_fit() {
    let mut acc = account(0);
    acc.init_h("BIG", Preset::new(0, 1 << 31).unwrap()).unwrap();
    for _ in 0..3 {
        acc.buy_open("BIG", 1, T1, 0).unwrap();
        acc.sell_close("BIG", 1, T2, 1 << 30).unwrap();
    }
    assert_eq!(acc.realized_pnl(), 3 * (1i64 << 61));
    acc.buy_open("BIG", 1, T1, 0).unwrap();
    let before = acc.clone();
    assert_eq!(acc.sell_close("BIG", 1, T2, 1 << 30), Err(ErrorKind::Rejected));
    assert_eq!(acc, before);
}

#[test]
fn test_init_h() {
    let mut acc = account(1_000);
    assert_eq!(acc.init_h("RBL8", Preset { margin_rate: 10_001, multiplier: 1 }), Err(ErrorKind::InvalidParameter));
    assert_eq!(acc.init_h("RBL8", Preset { margin_rate: 900, multiplier: 0 }), Err(ErrorKind::InvalidParameter));
    assert_eq!(acc.get_position("RBL8"), None);
    assert_eq!(acc.init_h("RBL8", Preset { margin_rate: 900, multiplier: 10 }), Ok(()));
    let before = acc.clone();
    assert_eq!(acc.init_h("RBL8", Preset { margin_rate: 800, multiplier: 5 }), Err(ErrorKind::Rejected));
    assert_eq!(acc, before);
    assert_eq!(
        acc.get_position("RBL8"),
        Some(QA_Position {
            preset: Preset { margin_rate: 900, multiplier: 10 },
            long: Leg { volume: 0, open_price: 0, margin: 0 },
            short: Leg { volume: 0, open_price: 0, margin: 0 },
        })
    );
    acc.init_h("IF", Preset::default()).unwrap();
    assert_eq!(acc.codes(), &vec!["RBL8".to_string(), "IF".to_string()]);
}

#[test]
fn test_preset_new() {
    assert_eq!(Preset::new(10_000, 1), Ok(Preset { margin_rate: 10_000, multiplier: 1 }));
    assert_eq!(Preset::new(0, 7), Ok(Preset { margin_rate: 0, multiplier: 7 }));
    assert_eq!(Preset::new(10_001, 1), Err(ErrorKind::InvalidParameter));
    assert_eq!(Preset::new(500, 0), Err(ErrorKind::InvalidParameter));
    assert!(Preset::default().is_valid());
    assert!(!Preset { margin_rate: 1, multiplier: 0 }.is_valid());
}

#[test]
fn test_send_order_dispatches_by_direction() {
    let mut acc = rb_account(1_000_000);
    let order = |direction, amount, price| QAOrder {
        code: "RBL8".to_string(),
        datetime: T1.to_string(),
        direction,
        amount,
        price,
    };
    let t = acc.send_order(&order(Direction::BuyOpen, 4, 3500)).unwrap();
    assert_eq!(t.direction, Direction::BuyOpen);
    assert_eq!(acc.get_volume_long("RBL8"), 4);
    acc.send_order(&order(Direction::SellOpen, 6, 3500)).unwrap();
    assert_eq!(acc.get_volume_short("RBL8"), 6);
    acc.send_order(&order(Direction::SellClose, 1, 3501)).unwrap();
    assert_eq!(acc.get_volume_long("RBL8"), 3);
    assert_eq!(acc.realized_pnl(), 10);
    let t = acc.send_order(&order(Direction::BuyClose, 6, 3499)).unwrap();
    assert_eq!(acc.get_volume_short("RBL8"), 0);
    assert_eq!(acc.realized_pnl(), 10 + 60);
    assert_eq!(t.money, 70);
    assert_eq!(
        acc.send_order(&order(Direction::BuyClose, 1, 3499)),
        Err(ErrorKind::InsufficientPosition)
    );
}

#[test]
fn test_cash_and_frozen_add_up_to_initial_cash() {
    let mut acc = rb_account(500_000);
    let steps: Vec<(Direction, i64, i64)> = vec![
        (Direction::BuyOpen, 7, 3501),
        (Direction::SellOpen, 3, 3499),
        (Direction::BuyOpen, 2, 3333),
        (Direction::SellClose, 4, 3600),
        (Direction::BuyClose, 5, 3400),
        (Direction::BuyClose, 2, 3400),
        (Direction::SellClose, 5, 3000),
        (Direction::BuyClose, 1, 3700),
    ];
    for (direction, amount, price) in steps {
        let order = QAOrder {
            code: "RBL8".to_string(),
            datetime: T1.to_string(),
            direction,
            amount,
            price,
        };
        let _ = acc.send_order(&order);
        assert_eq!(acc.cash() + acc.frozen_margin(), 500_000);
        assert!(acc.frozen_margin() >= 0);
        let position = acc.get_position("RBL8").unwrap();
        assert_eq!(position.long.margin + position.short.margin, acc.frozen_margin());
    }
    assert_eq!(acc.get_volume_long("RBL8"), 0);
    assert_eq!(acc.get_volume_short("RBL8"), 0);
    assert_eq!(acc.frozen_margin(), 0);
}

#[test]
fn test_margin_for() {
    let rb = Preset { margin_rate: 1_000, multiplier: 10 };
    assert_eq!(margin_for(&rb, 90, 3500), Some(31_500));
    assert_eq!(margin_for(&rb, 1, 9), Some(0));
    assert_eq!(margin_for(&rb, 1, 19_999), Some(1_999));
    assert_eq!(margin_for(&rb, 0, 3500), None);
    assert_eq!(margin_for(&rb, 1, -1), None);
    assert_eq!(margin_for(&rb, i64::MAX, 1), Some(i64::MAX / 10));
    assert_eq!(margin_for(&rb, i64::MAX, 2), None);
    assert_eq!(margin_for(&Preset::default(), 3, 5), Some(15));
}

#[test]
fn test_profit_for() {
    let rb = Preset { margin_rate: 1_000, multiplier: 10 };
    assert_eq!(profit_for(&rb, true, 3500, 3600, 90), Some(90_000));
    assert_eq!(profit_for(&rb, false, 3500, 3600, 90), Some(-90_000));
    assert_eq!(profit_for(&rb, true, 3500, 3500, 1), Some(0));
    assert_eq!(profit_for(&rb, true, 0, i64::MAX, 1), None);
    assert_eq!(profit_for(&rb, false, 0, i64::MAX, i64::MAX), None);
    let one = Preset::default();
    assert_eq!(profit_for(&one, true, 0, i64::MAX, 1), Some(i64::MAX));
    assert_eq!(profit_for(&one, false, 0, i64::MAX, 1), Some(-i64::MAX));
    assert_eq!(profit_for(&one, true, i64::MIN, i64::MAX, 1), None);
    assert_eq!(profit_for(&one, true, i64::MIN, i64::MAX, i64::MIN), None);
    assert_eq!(profit_for(&one, true, -1, i64::MAX - 1, -1), Some(-i64::MAX));
    assert_eq!(profit_for(&one, false, 1, i64::MIN + 1, i64::MIN), None);
    assert_eq!(profit_for(&rb, true, 7, 9, -3), Some(-60));
}

#[test]
fn test_leg_open_and_close() {
    let flat = Leg { volume: 0, open_price: 0, margin: 0 };
    let leg = flat.open(10, 100, 50).unwrap();
    assert_eq!(leg, Leg { volume: 10, open_price: 100, margin: 50 });
    let leg = leg.open(30, 200, 70).unwrap();
    assert_eq!(leg, Leg { volume: 40, open_price: 175, margin: 120 });
    assert_eq!(leg.close(10), Some((Leg { volume: 30, open_price: 175, margin: 90 }, 30)));
    assert_eq!(leg.close(40), Some((flat, 120)));
    assert_eq!(leg.close(41), None);
    assert_eq!(leg.close(0), None);
    assert_eq!(leg.close(-1), None);
    assert_eq!(flat.close(1), None);
}

#[test]
fn test_leg_open_refusals() {
    let leg = Leg { volume: 5, open_price: 10, margin: 7 };
    assert_eq!(leg.open(0, 10, 1), None);
    assert_eq!(leg.open(-3, 10, 1), None);
    assert_eq!(leg.open(1, -10, 1), None);
    assert_eq!(leg.open(1, 10, -1), None);
    assert_eq!(leg.open(i64::MAX, 2, 1), None);
    assert_eq!(leg.open(i64::MAX - 4, 0, 0), None);
    assert_eq!(leg.open(1, 10, i64::MAX - 6), None);
    assert_eq!(
        leg.open(i64::MAX - 5, 0, i64::MAX - 7),
        Some(Leg { volume: i64::MAX, open_price: 0, margin: i64::MAX })
    );
    let top = Leg { volume: i64::MAX - 1, open_price: i64::MAX, margin: 0 };
    assert_eq!(
        top.open(1, i64::MAX, 0),
        Some(Leg { volume: i64::MAX, open_price: i64::MAX, margin: 0 })
    );
}
