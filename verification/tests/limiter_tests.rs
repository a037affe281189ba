use analytic_engine::limiter::{Limiter, LimiterConfig, Plan};

fn make_query(table: &str) -> Plan {
    Plan::Query {
        tables: vec![table.to_string()],
    }
}

fn make_insert(table: &str) -> Plan {
    Plan::Insert {
        table: table.to_string(),
    }
}

fn prepare() -> Limiter {
    let block_list = vec!["test_table".to_string()];
    let mut limiter = Limiter::default();
    limiter.set_read_block_list(block_list.clone());
    limiter.set_write_block_list(block_list);
    limiter
}

#[test]
fn test_limiter() {
    let limiter = prepare();
    let query_plan = make_query("test_table");
    assert!(limiter.should_limit(&query_plan));

    let insert_plan = make_insert("test_table");
    assert!(limiter.should_limit(&insert_plan));
}

#[test]
fn test_limiter_remove() {
    let mut limiter = prepare();
    let test_data = vec!["test_table".to_string()];

    let query_plan = make_query("test_table");
    assert!(limiter.should_limit(&query_plan));

    let insert_plan = make_insert("test_table");
    assert!(limiter.should_limit(&insert_plan));

    limiter.remove_write_block_list(test_data.clone());
    limiter.remove_read_block_list(test_data);
    assert!(!limiter.should_limit(&query_plan));
    assert!(!limiter.should_limit(&insert_plan));
}

#[test]
fn test_limiter_add() {
    let mut limiter = prepare();
    let test_data = vec!["test_table2".to_string()];

    let query_plan = make_query("test_table2");
    assert!(!limiter.should_limit(&query_plan));

    let insert_plan = make_insert("test_table2");
    assert!(!limiter.should_limit(&insert_plan));

    limiter.add_write_block_list(test_data.clone());
    limiter.add_read_block_list(test_data);
    assert!(limiter.should_limit(&query_plan));
    assert!(limiter.should_limit(&insert_plan));
}

#[test]
fn test_limiter_set() {
    let mut limiter = prepare();
    let test_data = vec!["test_table2".to_string()];

    let query_plan = make_query("test_table");
    assert!(limiter.should_limit(&query_plan));

    let query_plan2 = make_query("test_table2");
    assert!(!limiter.should_limit(&query_plan2));

    let insert_plan = make_insert("test_table");
    assert!(limiter.should_limit(&insert_plan));

    let insert_plan2 = make_insert("test_table2");
    assert!(!limiter.should_limit(&insert_plan2));

    limiter.set_read_block_list(test_data.clone());
    limiter.set_write_block_list(test_data);
    assert!(!limiter.should_limit(&query_plan));
    assert!(!limiter.should_limit(&insert_plan));
    assert!(limiter.should_limit(&query_plan2));
    assert!(limiter.should_limit(&insert_plan2));
}

#[test]
fn test_limiter_config_and_get() {
    let limiter = Limiter::new(LimiterConfig {
        write_block_list: vec!["w1".to_string()],
        read_block_list: vec!["r1".to_string()],
    });
    assert_eq!(limiter.get_write_block_list(), vec!["w1".to_string()]);
    assert_eq!(limiter.get_read_block_list(), vec!["r1".to_string()]);
    assert!(!limiter.should_limit(&Plan::Other));
}
