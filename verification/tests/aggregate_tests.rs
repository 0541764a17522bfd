use ethers::types::U256;
use ethers::utils::{format_ether, parse_ether, parse_units, WEI_IN_ETHER};

use gas_used::aggregate::{compute_gas_used_by_addrs, ComputationError};
use gas_used::amount::Amount;
use gas_used::Transaction;

fn to_u256(a: Amount) -> U256 {
    U256([a.limb0, a.limb1, a.limb2, a.limb3])
}

fn tx(from: &str, gas_used: &str, gas_price: &str) -> Transaction {
    Transaction {
        from: from.to_string(),
        gasUsed: gas_used.to_string(),
        gasPrice: gas_price.to_string(),
    }
}

#[test]
fn test_count_gas_used() {
    let price = parse_units(WEI_IN_ETHER, "wei").unwrap();
    let txs = vec![
        Transaction {
            from: String::from("foo"),
            gasUsed: U256::from(1).to_string(),
            gasPrice: price.to_string(),
        },
        Transaction {
            from: String::from("foo"),
            gasUsed: U256::from(1).to_string(),
            gasPrice: price.to_string(),
        },
        Transaction {
            from: String::from("bar"),
            gasUsed: U256::from(1).to_string(),
            gasPrice: price.to_string(),
        },
    ];
    let addresses = vec!["foo".to_string(), "bar".to_string(), "baz".to_string()];
    match compute_gas_used_by_addrs(addresses, txs) {
        Ok(gas_used_by) => {
            match gas_used_by.get(&"foo".to_string()) {
                Some(total) => {
                    let want_eth = format_ether(parse_ether("2").unwrap());
                    assert_eq!(format_ether(to_u256(total)), want_eth);
                }
                None => panic!("foo not found"),
            }
            match gas_used_by.get(&"bar".to_string()) {
                Some(total) => {
                    let want_eth = format_ether(parse_ether("1").unwrap());
                    assert_eq!(format_ether(to_u256(total)), want_eth);
                }
                None => panic!("bar not found"),
            }
            match gas_used_by.get(&"baz".to_string()) {
                Some(total) => {
                    assert_eq!(format_ether(to_u256(total)), format_ether(U256::from(0)));
                }
                None => panic!("foo not found"),
            }
        }
        Err(_) => panic!("should not error"),
    }
}

#[test]
fn scenario_two_senders_one_idle() {
    // Tracked {foo, bar, baz}; two transactions from foo and one from bar,
    // each worth one ether in smallest units.
    let one_ether = "1000000000000000000";
    let txs = vec![
        tx("foo", "1", one_ether),
        tx("foo", "1", one_ether),
        tx("bar", "1", one_ether),
    ];
    let addresses = vec!["foo".to_string(), "bar".to_string(), "baz".to_string()];
    let totals = compute_gas_used_by_addrs(addresses, txs).unwrap();
    assert_eq!(totals.len(), 3);
    assert_eq!(
        to_u256(totals.get(&"foo".to_string()).unwrap()),
        U256::from_dec_str("2000000000000000000").unwrap()
    );
    assert_eq!(
        to_u256(totals.get(&"bar".to_string()).unwrap()),
        U256::from_dec_str("1000000000000000000").unwrap()
    );
    assert_eq!(to_u256(totals.get(&"baz".to_string()).unwrap()), U256::zero());
}

#[test]
fn empty_transactions_all_totals_zero() {
    let addresses = vec!["a".to_string(), "b".to_string(), "c".to_string()];
    let totals = compute_gas_used_by_addrs(addresses, Vec::new()).unwrap();
    assert_eq!(totals.len(), 3);
    for name in ["a", "b", "c"] {
        assert_eq!(to_u256(totals.get(&name.to_string()).unwrap()), U256::zero());
    }
}

#[test]
fn empty_tracked_set_empty_mapping() {
    let txs = vec![tx("foo", "2", "3")];
    let totals = compute_gas_used_by_addrs(Vec::new(), txs).unwrap();
    assert_eq!(totals.len(), 0);
    assert!(totals.get(&"foo".to_string()).is_none());
}

#[test]
fn untracked_senders_never_appear() {
    let txs = vec![
        tx("mallory", "10", "10"),
        tx("mallory", "10", "10"),
        tx("mallory", "10", "10"),
    ];
    let totals = compute_gas_used_by_addrs(vec!["foo".to_string()], txs).unwrap();
    assert_eq!(totals.len(), 1);
    assert!(totals.get(&"mallory".to_string()).is_none());
    assert_eq!(to_u256(totals.get(&"foo".to_string()).unwrap()), U256::zero());
}

#[test]
fn fee_is_price_times_quantity_accumulated() {
    // 3 * 7 + 2 * 5 = 31 for foo; order of transactions from others in between.
    let txs = vec![
        tx("foo", "7", "3"),
        tx("other", "100", "100"),
        tx("foo", "5", "2"),
    ];
    let totals = compute_gas_used_by_addrs(vec!["foo".to_string()], txs).unwrap();
    assert_eq!(to_u256(totals.get(&"foo".to_string()).unwrap()), U256::from(31));
}

#[test]
fn permuting_transactions_keeps_totals() {
    let forward = vec![tx("foo", "7", "3"), tx("bar", "2", "9"), tx("foo", "5", "2")];
    let backward = vec![tx("foo", "5", "2"), tx("bar", "2", "9"), tx("foo", "7", "3")];
    let watch_list = vec!["foo".to_string(), "bar".to_string()];
    let t1 = compute_gas_used_by_addrs(watch_list.clone(), forward).unwrap();
    let t2 = compute_gas_used_by_addrs(watch_list, backward).unwrap();
    for name in ["foo", "bar"] {
        assert_eq!(
            to_u256(t1.get(&name.to_string()).unwrap()),
            to_u256(t2.get(&name.to_string()).unwrap())
        );
    }
}

#[test]
fn repeating_the_aggregation_gives_identical_output() {
    let make_txs = || vec![tx("foo", "7", "3"), tx("bar", "2", "9")];
    let watch_list = vec!["foo".to_string(), "bar".to_string()];
    let t1 = compute_gas_used_by_addrs(watch_list.clone(), make_txs()).unwrap();
    let t2 = compute_gas_used_by_addrs(watch_list, make_txs()).unwrap();
    assert_eq!(t1.len(), t2.len());
    for name in ["foo", "bar"] {
        assert_eq!(
            to_u256(t1.get(&name.to_string()).unwrap()),
            to_u256(t2.get(&name.to_string()).unwrap())
        );
    }
}

#[test]
fn malformed_numeric_fields_contribute_zero() {
    let txs = vec![
        tx("foo", "abc", "10"),
        tx("foo", "10", "1.5"),
        tx("foo", "-3", "10"),
        tx("foo", " 1", "10"),
        tx("foo", "2", "3"),
    ];
    let totals = compute_gas_used_by_addrs(vec!["foo".to_string()], txs).unwrap();
    assert_eq!(to_u256(totals.get(&"foo".to_string()).unwrap()), U256::from(6));
}

#[test]
fn empty_numeric_field_counts_as_zero() {
    let txs = vec![tx("foo", "", "10"), tx("foo", "4", "5")];
    let totals = compute_gas_used_by_addrs(vec!["foo".to_string()], txs).unwrap();
    assert_eq!(to_u256(totals.get(&"foo".to_string()).unwrap()), U256::from(20));
}

#[test]
fn out_of_range_numeric_field_counts_as_zero() {
    // One more than the largest 256-bit value: fails to parse, factor is zero.
    let too_big = "115792089237316195423570985008687907853269984665640564039457584007913129639936";
    let txs = vec![tx("foo", too_big, "10"), tx("foo", "4", "5")];
    let totals = compute_gas_used_by_addrs(vec!["foo".to_string()], txs).unwrap();
    assert_eq!(to_u256(totals.get(&"foo".to_string()).unwrap()), U256::from(20));
}

#[test]
fn fee_overflow_skips_transaction_and_continues() {
    // 2^255 parses, but doubling it overflows 256 bits: the transaction is
    // dropped and processing continues with the next one.
    let half = "57896044618658097711785492504343953926634992332820282019728792003956564819968";
    let txs = vec![tx("foo", "2", half), tx("foo", "4", "5")];
    let totals = compute_gas_used_by_addrs(vec!["foo".to_string()], txs).unwrap();
    assert_eq!(to_u256(totals.get(&"foo".to_string()).unwrap()), U256::from(20));
}

#[test]
fn accumulation_overflow_is_fatal() {
    // Each fee fits in 256 bits, their sum does not: the aggregation aborts.
    let max = "115792089237316195423570985008687907853269984665640564039457584007913129639935";
    let txs = vec![tx("foo", "1", max), tx("foo", "1", max)];
    let r = compute_gas_used_by_addrs(vec!["foo".to_string()], txs);
    assert!(matches!(r, Err(ComputationError::AccumulationOverflow)));
}

#[test]
fn duplicate_tracked_addresses_collapse_to_one_entry() {
    let txs = vec![tx("foo", "2", "3")];
    let watch_list = vec!["foo".to_string(), "foo".to_string()];
    let totals = compute_gas_used_by_addrs(watch_list, txs).unwrap();
    assert_eq!(totals.len(), 1);
    assert_eq!(to_u256(totals.get(&"foo".to_string()).unwrap()), U256::from(6));
}

#[test]
fn address_match_is_case_sensitive() {
    let txs = vec![tx("Foo", "2", "3")];
    let totals = compute_gas_used_by_addrs(vec!["foo".to_string()], txs).unwrap();
    assert_eq!(to_u256(totals.get(&"foo".to_string()).unwrap()), U256::zero());
    assert!(totals.get(&"Foo".to_string()).is_none());
}
