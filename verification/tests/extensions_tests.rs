use pi_coding_agent::extensions::{
    is_safe_command_name, plan_runtime_tool, CommandDispatcher, CommandHandler, DispatchError,
    ExecutorType, ExtensionToolSpec, RuntimeExecutor, ToolWrapperDef, ToolWrapperRegistry,
    WasmConfig, WrapperType,
};

#[test]
fn command_dispatcher_registers_and_executes() {
    struct TestHandler;
    impl CommandHandler for TestHandler {
        fn execute(&self, args: &[String]) -> Result<String, String> {
            Ok(format!("executed with {} args", args.len()))
        }
    }

    let mut dispatcher = CommandDispatcher::new();
    dispatcher.register("test", Box::new(TestHandler));

    assert!(dispatcher.has("test"));
    assert!(!dispatcher.has("unknown"));

    let result = dispatcher.execute("test", &["arg1".to_string()]);
    assert!(result.is_ok());
    assert_eq!(result.unwrap(), "executed with 1 args");
}

#[test]
fn dispatcher_unknown_command_and_listing() {
    struct Echo;
    impl CommandHandler for Echo {
        fn execute(&self, args: &[String]) -> Result<String, String> {
            Err(args.join(" "))
        }
    }
    let mut d: CommandDispatcher = CommandDispatcher::new();
    d.register("a", Box::new(Echo));
    d.register("b", Box::new(Echo));
    d.register("a", Box::new(Echo));
    assert_eq!(d.list_commands(), vec!["a", "b"]);
    assert_eq!(
        d.execute("zzz", &[]),
        Err(DispatchError::UnknownCommand("zzz".to_string()))
    );
    assert_eq!(
        d.execute("a", &["x".to_string(), "y".to_string()]),
        Err(DispatchError::Failed("x y".to_string()))
    );
    assert!(d.get("b").is_some());
}

fn wrapper(tool: &str, desc: &str, hook: &str) -> ToolWrapperDef {
    ToolWrapperDef {
        tool_name: tool.to_string(),
        description: desc.to_string(),
        wrapper_type: WrapperType::Shell,
        before_hook: Some(hook.to_string()),
        after_hook: None,
    }
}

#[test]
fn tool_wrapper_registry_registers_and_retrieves() {
    let mut registry = ToolWrapperRegistry::new();
    registry.register(wrapper("read", "Log all read calls", "wrap.sh"));
    assert!(registry.has_wrappers("read"));
    assert!(!registry.has_wrappers("write"));
    let wrappers = registry.get_wrappers("read");
    assert_eq!(wrappers.len(), 1);
    assert_eq!(wrappers[0].tool_name, "read");
}

#[test]
fn tool_wrapper_registry_global_wildcard() {
    let mut registry = ToolWrapperRegistry::new();
    registry.register(wrapper("*", "Log all tool calls", "global_wrap.sh"));
    assert!(registry.has_wrappers("read"));
    assert!(registry.has_wrappers("write"));
    assert!(registry.has_wrappers("any_tool"));
}

#[test]
fn tool_wrapper_registry_combines_global_and_specific() {
    let mut registry = ToolWrapperRegistry::new();
    registry.register(wrapper("*", "Global", "global.sh"));
    registry.register(wrapper("read", "Specific", "read.sh"));
    let wrappers = registry.get_wrappers("read");
    assert_eq!(wrappers.len(), 2);
    assert_eq!(wrappers[0].tool_name, "*");
    assert_eq!(wrappers[1].tool_name, "read");
}

#[test]
fn tool_wrapper_registry_unregister_and_clear() {
    let mut registry = ToolWrapperRegistry::default();
    registry.register(wrapper("read", "one", "1.sh"));
    registry.register(wrapper("read", "two", "2.sh"));
    registry.register(wrapper("write", "w", "w.sh"));
    let ws = registry.get_wrappers("read");
    assert_eq!(ws.len(), 2);
    assert_eq!(ws[1].description, "two");
    registry.unregister("read");
    assert!(!registry.has_wrappers("read"));
    assert!(registry.has_wrappers("write"));
    registry.clear();
    assert!(!registry.has_wrappers("write"));
}

#[test]
fn test_wasm_config_default() {
    let config = WasmConfig::default();
    assert_eq!(config.max_memory_mb, 128);
    assert_eq!(config.timeout_secs, 30);
    assert!(config.enable_wasi);
}

fn spec(name: &str, desc: &str, executor: ExecutorType, command: Option<&str>, binary: Option<&str>) -> ExtensionToolSpec {
    ExtensionToolSpec {
        name: name.to_string(),
        description: desc.to_string(),
        executor,
        command: command.map(|s| s.to_string()),
        binary: binary.map(|s| s.to_string()),
    }
}

#[test]
fn runtime_tool_skips_wasm_executor_without_binary() {
    let tool = spec("wasm_tool", "d", ExecutorType::Wasm, None, None);
    assert!(plan_runtime_tool("demo", "/ext/demo", &tool).is_none());
}

#[test]
fn runtime_tool_accepts_binary_executor() {
    let tool = spec("bin tool", "", ExecutorType::Binary, None, Some("/usr/bin/true"));
    let plan = plan_runtime_tool("My Ext", "/ext/demo", &tool).unwrap();
    assert_eq!(plan.tool_name, "ext_my_ext_bin_tool");
    assert_eq!(plan.description, "Extension tool 'bin tool' from 'My Ext'");
    assert_eq!(plan.executor, RuntimeExecutor::Binary { path: "/usr/bin/true".to_string() });
    let rel = spec("x", "does x", ExecutorType::Binary, None, Some("bin/x"));
    let plan = plan_runtime_tool("e", "/ext/e", &rel).unwrap();
    assert_eq!(plan.executor, RuntimeExecutor::Binary { path: "/ext/e/bin/x".to_string() });
    assert_eq!(plan.description, "does x");
    let shell = spec("s", "", ExecutorType::Shell, Some("   "), None);
    assert!(plan_runtime_tool("e", "/ext/e", &shell).is_none());
    let empty_names = spec("!!!", "d", ExecutorType::Shell, Some("echo"), None);
    assert_eq!(plan_runtime_tool("???", "/x", &empty_names).unwrap().tool_name, "ext_extension_extension");
}

#[test]
fn command_names_are_checked() {
    assert!(is_safe_command_name("deploy"));
    assert!(!is_safe_command_name("../x"));
    assert!(!is_safe_command_name("a/b"));
    assert!(!is_safe_command_name("a\\b"));
    assert!(!is_safe_command_name("a..b"));
}
