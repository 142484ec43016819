use fruently::fluent::Fluent;
use fruently::retry_conf::RetryConf;

#[test]
fn create_fruently() {
    let fruently = Fluent::new("127.0.0.1:24224".to_string(), "test".to_string());
    let expected = Fluent {
        addr: "127.0.0.1:24224".to_string(),
        tag: "test".to_string(),
        conf: RetryConf::new(),
    };
    assert_eq!(expected, fruently);
}

#[test]
fn getters_return_construction_values() {
    let conf = RetryConf::new().max(4).multiplier(3, 2).base(100);
    let f = Fluent::new_with_conf("127.0.0.1:24224".to_string(), "app.log".to_string(), conf.clone());
    assert_eq!(f.get_addr().as_str(), "127.0.0.1:24224");
    assert_eq!(f.get_tag().as_str(), "app.log");
    assert_eq!(f.get_conf(), &conf);
}

#[test]
fn default_conf_values() {
    let c = RetryConf::new();
    assert_eq!(c.max_attempts, 13);
    assert_eq!(c.multiplier_num, 2);
    assert_eq!(c.multiplier_den, 1);
    assert_eq!(c.base_delay, 500);
    assert!(c.buffer_path.is_none());
    assert_eq!(c.build(), (13, 2, 1));
}

#[test]
fn store_file_sets_buffer_path() {
    let c = RetryConf::new().store_file("/tmp/fallback.buf".to_string());
    assert_eq!(c.buffer_path.as_deref(), Some("/tmp/fallback.buf"));
}
