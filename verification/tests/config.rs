use ioc::config::{CfgParams, CfgSource, ConfigSource, IsConfig, Stored};
use ioc::error::{ConfigFault, Error};
use ioc::init::InitCtx;
use ioc::life::{InitPhase, Latch};

fn source() -> CfgSource {
    let mut source = CfgSource::new();
    source.set("web.addr", Stored::Text("127.0.0.1".to_string()));
    source.set("web.port", Stored::Integer(8080));
    source.set("web.tracing", Stored::Flag(true));
    source.set("web.offset", Stored::Integer(-3));
    source.set("web.huge", Stored::Integer(u64::MAX as i128));
    source.set("web.broken", Stored::Unreadable);
    source
}

#[test]
fn default_params_name_the_app_files_here() {
    let params = CfgParams::default();
    assert_eq!(params.name, "app");
    assert_eq!(params.dir, ".");
    assert_eq!(params.prefix_env, "APP");
}

#[test]
fn stored_values_are_read_as_the_type_asked_for() {
    let source = source();
    assert_eq!(source.get_config::<String>("web.addr").unwrap(), "127.0.0.1");
    assert_eq!(source.get_config::<u64>("web.port").unwrap(), 8080);
    assert_eq!(source.get_config::<u16>("web.port").unwrap(), 8080);
    assert_eq!(source.get_config::<u32>("web.port").unwrap(), 8080);
    assert_eq!(source.get_config::<usize>("web.port").unwrap(), 8080);
    assert_eq!(source.get_config::<i16>("web.port").unwrap(), 8080);
    assert_eq!(source.get_config::<i32>("web.port").unwrap(), 8080);
    assert_eq!(source.get_config::<i128>("web.port").unwrap(), 8080);
    assert_eq!(source.get_config::<i64>("web.offset").unwrap(), -3);
    assert_eq!(source.get_config::<i8>("web.offset").unwrap(), -3);
    assert_eq!(source.get_config::<isize>("web.offset").unwrap(), -3);
    assert_eq!(source.get_config::<u64>("web.huge").unwrap(), u64::MAX);
    assert!(source.get_config::<bool>("web.tracing").unwrap());
}

#[test]
fn integer_out_of_the_range_of_the_type_is_a_mismatch() {
    let source = source();
    for outcome in [
        source.get_config::<u8>("web.port").map(|v| v as i128),
        source.get_config::<i8>("web.port").map(|v| v as i128),
        source.get_config::<u64>("web.offset").map(|v| v as i128),
        source.get_config::<usize>("web.offset").map(|v| v as i128),
        source.get_config::<i64>("web.huge").map(|v| v as i128),
        source.get_config::<u32>("web.huge").map(|v| v as i128),
    ] {
        assert!(matches!(outcome, Err(Error::ConfigError(ConfigFault::Mismatch))));
    }
    assert_eq!(u8::from_stored(&Stored::Integer(255)), Some(255));
    assert_eq!(u8::from_stored(&Stored::Integer(256)), None);
    assert_eq!(i8::from_stored(&Stored::Integer(-128)), Some(-128));
    assert_eq!(i8::from_stored(&Stored::Integer(-129)), None);
    assert_eq!(i64::from_stored(&Stored::Integer(i64::MAX as i128 + 1)), None);
    assert_eq!(u16::from_stored(&Stored::Integer(-1)), None);
}

#[test]
fn default_stands_in_for_a_missing_value_only() {
    let source = source();
    assert_eq!(source.get_config_or::<u64>("web.port", 1).unwrap(), 8080);
    assert_eq!(source.get_config_or::<u64>("web.backlog", 7).unwrap(), 7);
    assert_eq!(
        source.get_config_or::<String>("web.name", "none".to_string()).unwrap(),
        "none"
    );
    assert!(!source.get_config_or::<bool>("web.debug", false).unwrap());
    assert_eq!(source.get_config_or::<i64>("web.offset", 5).unwrap(), -3);
    assert_eq!(source.get_config_or::<i64>("web.shift", 5).unwrap(), 5);
    assert_eq!(
        source.get_config_or::<String>("web.addr", "none".to_string()).unwrap(),
        "127.0.0.1"
    );
    assert!(source.get_config_or::<bool>("web.tracing", false).unwrap());
}

#[test]
fn failed_lookups_are_configuration_errors() {
    let source = source();
    assert!(matches!(
        source.get_config::<String>("web.missing"),
        Err(Error::ConfigError(ConfigFault::NotFound))
    ));
    assert!(matches!(
        source.get_config::<u64>("web.addr"),
        Err(Error::ConfigError(ConfigFault::Mismatch))
    ));
    assert!(matches!(
        source.get_config::<String>("web.port"),
        Err(Error::ConfigError(ConfigFault::Mismatch))
    ));
    assert!(matches!(
        source.get_config_or::<u64>("web.addr", 3),
        Err(Error::ConfigError(ConfigFault::Mismatch))
    ));
    assert!(matches!(
        source.get_config::<bool>("web.broken"),
        Err(Error::ConfigError(ConfigFault::Unreadable))
    ));
    assert!(matches!(
        source.get_config_or::<bool>("web.broken", true),
        Err(Error::ConfigError(ConfigFault::Unreadable))
    ));
}

#[test]
fn what_was_stored_first_stays_in_force() {
    let mut source = source();
    source.set("web.port", Stored::Integer(1));
    source.set("web.extra", Stored::Integer(2));
    source.set("web.extra", Stored::Flag(false));
    assert_eq!(source.get_config::<u64>("web.port").unwrap(), 8080);
    assert_eq!(source.get_config::<u64>("web.extra").unwrap(), 2);
    assert!(matches!(source.stored("web.extra"), Some(Stored::Integer(2))));
    assert!(source.stored("web.nothing").is_none());
}

#[test]
fn lookup_and_lookup_with_default_agree_on_what_is_stored() {
    let source = source();
    for key in ["web.port", "web.backlog", "web.addr"] {
        match source.get_config::<u64>(key) {
            Ok(found) => assert_eq!(source.get_config_or::<u64>(key, 1).unwrap(), found),
            Err(Error::ConfigError(ConfigFault::NotFound)) => {
                assert_eq!(source.get_config_or::<u64>(key, 1).unwrap(), 1)
            }
            Err(_) => assert!(source.get_config_or::<u64>(key, 1).is_err()),
        }
    }
}

#[test]
fn init_context_answers_from_its_source() {
    let mut latch = Latch::new();
    let ctx: InitCtx<u64> = InitCtx::new(InitPhase::take(&mut latch).unwrap(), source());
    assert_eq!(ctx.get_config::<u64>("web.port").unwrap(), 8080);
    assert_eq!(ctx.get_config_or::<u64>("web.backlog", 7).unwrap(), 7);
    assert!(matches!(
        ctx.get_config::<bool>("web.missing"),
        Err(Error::ConfigError(ConfigFault::NotFound))
    ));
}
