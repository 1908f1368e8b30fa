//! The table tests carry t-statistics and critical values in thousandths
//! and probabilities in millionths, the units the table works in.
use taglog::ttable::{TRow, TTable};

fn row_df_9() -> TRow {
    TRow {
        df: 9,
        p20: 1383,
        p10: 1833,
        p05: 2262,
        p02: 2821,
        p01: 3250,
        p005: 3690,
        p002: 4297,
        p001: 4781,
    }
}

fn row_df_14() -> TRow {
    TRow {
        df: 14,
        p20: 1345,
        p10: 1761,
        p05: 2145,
        p02: 2625,
        p01: 2977,
        p005: 3326,
        p002: 3787,
        p001: 4140,
    }
}

fn row_df_17() -> TRow {
    TRow {
        df: 17,
        p20: 1333,
        p10: 1740,
        p05: 2110,
        p02: 2567,
        p01: 2898,
        p005: 3222,
        p002: 3646,
        p001: 3965,
    }
}

fn row_df_300() -> TRow {
    TRow {
        df: 300,
        p20: 1284,
        p10: 1650,
        p05: 1968,
        p02: 2339,
        p01: 2592,
        p005: 2833,
        p002: 3118,
        p001: 3323,
    }
}

fn table() -> TTable {
    TTable::from_rows(vec![row_df_9(), row_df_14(), row_df_17(), row_df_300()])
}

#[test]
fn can_find_appropriate_max_p_for_t() {
    let ttable = table();

    assert_eq!(ttable.get_p_for(9, 5000), 1000);
    assert_eq!(ttable.get_p_for(9, 4300), 2000);
    assert_eq!(ttable.get_p_for(9, 3800), 5000);
    assert_eq!(ttable.get_p_for(9, 3300), 10000);
    assert_eq!(ttable.get_p_for(9, 2900), 20000);
    assert_eq!(ttable.get_p_for(9, 2300), 50000);
    assert_eq!(ttable.get_p_for(9, 1900), 100000);
    assert_eq!(ttable.get_p_for(9, 1400), 200000);
    assert_eq!(ttable.get_p_for(9, 1100), 1000000);
    assert_eq!(ttable.get_p_for(-9, 1400), 1000000);
}

#[test]
fn nearest_df_is_rounded_down_for_given_df_not_on_table() {
    assert_eq!(TTable::nearest_df(41), 40);
    assert_eq!(TTable::nearest_df(42), 42);
    assert_eq!(TTable::nearest_df(110), 100);
    assert_eq!(TTable::nearest_df(130), 120);
    assert_eq!(TTable::nearest_df(170), 150);
    assert_eq!(TTable::nearest_df(270), 200);
    assert_eq!(TTable::nearest_df(670), 500);
    assert_eq!(TTable::nearest_df(1001), 1000);
    assert_eq!(TTable::nearest_df(52), 50);
    assert_eq!(TTable::nearest_df(57), 50);
}

#[test]
fn ttable_returns_expected_t_value_for_given_query() {
    let ttable = table();

    let t = ttable.get_t_for(17, 50000);
    let t2 = ttable.get_t_for(300, 1000);
    let t3 = ttable.get_t_for(-1, 50000);

    assert_eq!(t, 2110);
    assert_eq!(t2, 3323);
    assert_eq!(t3, 1000000);
    assert_eq!(ttable.get_t_for(14, 1100), 4140);
    assert_eq!(ttable.get_t_for(14, 2100), 3787);
    assert_eq!(ttable.get_t_for(14, 5100), 3326);
    assert_eq!(ttable.get_t_for(14, 11000), 2977);
    assert_eq!(ttable.get_t_for(14, 22000), 2625);
    assert_eq!(ttable.get_t_for(14, 110000), 1761);
    assert_eq!(ttable.get_t_for(14, 210000), 1345);
}

#[test]
fn row_count_reports_the_loaded_rows() {
    assert_eq!(table().row_count(), 4);
}
