use lightbulb::name_mapping::ModelArchitecture;
use lightbulb::tools::{ModelCapabilities, Tool, ToolRegistry};

#[test]
fn test_text_only_model() {
    let mut tensor_names = Vec::new();
    for layer_idx in 0..32 {
        tensor_names.push(format!("blk.{}.attn_q.weight", layer_idx));
        tensor_names.push(format!("blk.{}.ffn_gate.weight", layer_idx));
    }
    tensor_names.push("output.weight".to_string());

    let registry = ToolRegistry::from_tensor_names(&tensor_names);

    assert!(registry.capabilities().supports_text);
    assert!(!registry.capabilities().supports_vision);
    assert!(!registry.capabilities().supports_function_calling);
    assert_eq!(registry.capabilities().num_layers, 32);
    assert_eq!(registry.num_tools(), 1);
}

#[test]
fn test_vision_model() {
    let mut tensor_names = Vec::new();
    tensor_names.push("vision.patch_embed.weight".to_string());
    tensor_names.push("vision.encoder.0.attn_q.weight".to_string());
    for layer_idx in 0..24 {
        tensor_names.push(format!("blk.{}.attn_q.weight", layer_idx));
    }

    let registry = ToolRegistry::from_tensor_names(&tensor_names);

    assert!(registry.capabilities().supports_text);
    assert!(registry.capabilities().supports_vision);
    assert!(!registry.capabilities().supports_function_calling);
    assert_eq!(registry.num_tools(), 2);
}

#[test]
fn test_function_calling_model() {
    let mut tensor_names = Vec::new();
    for layer_idx in 0..40 {
        tensor_names.push(format!("blk.{}.attn_q.weight", layer_idx));
    }
    tensor_names.push("function_call.head.weight".to_string());
    tensor_names.push("tool_use.classifier.weight".to_string());

    let registry = ToolRegistry::from_tensor_names(&tensor_names);

    assert!(registry.capabilities().supports_text);
    assert!(!registry.capabilities().supports_vision);
    assert!(registry.capabilities().supports_function_calling);
    assert_eq!(registry.num_tools(), 2);
}

#[test]
fn test_multimodal_model() {
    let mut tensor_names = Vec::new();
    tensor_names.push("vision.encoder.0.attn_q.weight".to_string());
    for layer_idx in 0..32 {
        tensor_names.push(format!("blk.{}.attn_q.weight", layer_idx));
    }
    tensor_names.push("function_head.weight".to_string());

    let registry = ToolRegistry::from_tensor_names(&tensor_names);

    assert!(registry.capabilities().supports_text);
    assert!(registry.capabilities().supports_vision);
    assert!(registry.capabilities().supports_function_calling);
    assert_eq!(registry.num_tools(), 3);
}

#[test]
fn test_query_tool_matching() {
    let mut tensor_names = Vec::new();
    tensor_names.push("vision.patch_embed.weight".to_string());
    for layer_idx in 0..16 {
        tensor_names.push(format!("blk.{}.attn_q.weight", layer_idx));
    }

    let registry = ToolRegistry::from_tensor_names(&tensor_names);

    let tools = registry.get_tools_for_query("analyze this image");
    assert_eq!(tools.len(), 1);
    assert_eq!(tools[0].name, "image_understanding");

    let tools = registry.get_tools_for_query("write a story");
    assert_eq!(tools.len(), 1);
    assert_eq!(tools[0].name, "text_generation");

    let tools = registry.get_tools_for_query("generate text and analyze picture");
    assert_eq!(tools.len(), 2);
}

#[test]
fn test_custom_tool_registration() {
    let tensor_names = vec!["blk.0.attn_q.weight".to_string()];
    let mut registry = ToolRegistry::from_tensor_names(&tensor_names);

    let custom_tool = Tool {
        name: "code_generation".to_string(),
        description: "Generate code".to_string(),
        keywords: vec!["code".to_string(), "program".to_string()],
        requires_vision: false,
        requires_function_calling: false,
    };

    assert!(registry.register_tool(custom_tool).is_ok());
    assert_eq!(registry.num_tools(), 2);
}

#[test]
fn test_incompatible_tool_registration() {
    let tensor_names = vec!["blk.0.attn_q.weight".to_string()];
    let mut registry = ToolRegistry::from_tensor_names(&tensor_names);

    let vision_tool = Tool::image_understanding();
    let result = registry.register_tool(vision_tool);

    assert!(result.is_err());
    assert!(result.err().unwrap().to_string().contains("requires vision"));
}

#[test]
fn test_architecture_detection() {
    let mut tensor_names = Vec::new();
    for layer_idx in 0..24 {
        tensor_names.push(format!("blk.{}.attn_q.weight", layer_idx));
    }

    let registry = ToolRegistry::from_tensor_names(&tensor_names);

    assert_eq!(registry.architecture(), &ModelArchitecture::LLaMA);
    assert_eq!(registry.capabilities().num_layers, 24);
}

#[test]
fn query_results_rank_by_keyword_hits_and_ignore_case() {
    let tensor_names = vec!["vision.x".to_string(), "tool_head".to_string()];
    let mut registry = ToolRegistry::from_tensor_names(&tensor_names);
    assert_eq!(registry.capabilities().max_context, 2048);
    // "Look" and "Picture" arrive uppercased; keywords are lowercase.
    let tools = registry.get_tools_for_query("Look at this Picture, then Call the API and Execute");
    let names: Vec<&str> = tools.iter().map(|t| t.name.as_str()).collect();
    assert_eq!(names, vec!["function_call", "image_understanding"]);
    assert!(registry.get_tools_for_query("nothing relevant").is_empty());

    // Re-registering a name replaces the tool in place.
    let mut replacement = Tool::text_generation();
    replacement.keywords = vec!["zzz".to_string()];
    assert!(registry.register_tool(replacement).is_ok());
    assert_eq!(registry.num_tools(), 3);
    assert_eq!(registry.get_tool("text_generation").unwrap().keywords, vec!["zzz".to_string()]);
    assert!(registry.get_tool("missing").is_none());
    assert_eq!(registry.tools()[0].name, "text_generation");
}

#[test]
fn function_tools_need_function_calling() {
    let mut registry = ToolRegistry::from_tensor_names(&["blk.0.attn_q.weight".to_string()]);
    let err = registry.register_tool(Tool::function_call()).err().unwrap();
    assert_eq!(
        err.to_string(),
        "Tool 'function_call' requires function calling but model doesn't support it"
    );
    assert_eq!(registry.num_tools(), 1);
    let caps = ModelCapabilities::default();
    assert!(!caps.supports_text && caps.num_layers == 0 && caps.max_context == 0);
    let t = Tool::image_understanding();
    assert_eq!(t.keywords.len(), 6);
    assert!(t.requires_vision);
}
