use webgl_rs::config::{parse_config, GeneratorError};
use webgl_rs::facade::expand_macro;
use webgl_rs::naming::{get_last_segment_name, method_name_for, pascal_to_snake_case};
use webgl_rs::token::{Delim, Token};

/// Splits configuration text into tokens the way the compiler would hand them over.
fn toks(src: &str) -> Vec<Token> {
    let chars: Vec<char> = src.chars().collect();
    let mut out = Vec::new();
    let mut i = 0;
    let is_punct = |c: char| !c.is_whitespace() && !c.is_alphanumeric() && c != '_' && !"()[]{}".contains(c);
    while i < chars.len() {
        let c = chars[i];
        if c.is_whitespace() {
            i += 1;
        } else if c.is_alphabetic() || c == '_' {
            let start = i;
            while i < chars.len() && (chars[i].is_alphanumeric() || chars[i] == '_') {
                i += 1;
            }
            out.push(Token::Ident(chars[start..i].iter().collect()));
        } else if c.is_ascii_digit() {
            let start = i;
            while i < chars.len() && chars[i].is_ascii_alphanumeric() {
                i += 1;
            }
            out.push(Token::Literal(chars[start..i].iter().collect()));
        } else {
            let tok = match c {
                '(' => Token::Open(Delim::Paren),
                '[' => Token::Open(Delim::Bracket),
                '{' => Token::Open(Delim::Brace),
                ')' => Token::Close(Delim::Paren),
                ']' => Token::Close(Delim::Bracket),
                '}' => Token::Close(Delim::Brace),
                _ => {
                    let joint = i + 1 < chars.len() && is_punct(chars[i + 1]);
                    Token::punct(c, joint)
                }
            };
            out.push(tok);
            i += 1;
        }
    }
    out
}

fn methods_of(src: &str) -> Vec<String> {
    match expand_macro(&toks(src)) {
        Ok(plan) => plan.method_names(),
        Err(e) => panic!("expected a facade, got {:?}", describe(&e)),
    }
}

fn describe(e: &GeneratorError) -> String {
    match e {
        GeneratorError::DuplicateField { field, at } => format!("duplicate {} at {}", field, at),
        GeneratorError::UnknownField { field, at } => format!("unknown {} at {}", field, at),
        GeneratorError::MissingField { field } => format!("missing {}", field),
        GeneratorError::InvalidRenderableType { at } => format!("invalid renderable at {}", at),
        GeneratorError::Syntax { at } => format!("syntax at {}", at),
    }
}

fn error_of(src: &str) -> String {
    match parse_config(&toks(src)) {
        Ok(_) => panic!("expected an error for {}", src),
        Err(e) => describe(&e),
    }
}

#[test]
fn complete_block_gives_one_method_per_renderable_in_order() {
    let m = methods_of(
        "{ name: MyRenderer, renderables: [ j_webgl::structs::renderable::Initializer, j_webgl::structs::renderable::Cube, j_webgl::structs::renderable::CubeWithNormals, ], camera: j_webgl::structs::camera::Basic, }",
    );
    assert_eq!(
        m,
        vec!["new", "with_initializer", "with_cube", "with_cube_with_normals", "without", "resize", "render"]
    );
}

#[test]
fn fields_in_any_order_and_without_commas() {
    let a = methods_of("{ camera: Basic renderables: [Cube] name: R }");
    let b = methods_of("{ renderables: [Cube], name: R, camera: Basic }");
    assert_eq!(a, vec!["new", "with_cube", "without", "resize", "render"]);
    assert_eq!(a, b);
}

#[test]
fn parsed_config_holds_each_field() {
    let c = match parse_config(&toks("{ name: R, renderables: [::a::Cube, Initializer], camera: cams::Basic }")) {
        Ok(c) => c,
        Err(e) => panic!("{}", describe(&e)),
    };
    assert_eq!(c.name, "R");
    assert_eq!(c.renderables.len(), 2);
    assert!(c.renderables[0].leading_colon);
    assert_eq!(c.renderables[0].segments, vec!["a", "Cube"]);
    assert!(!c.renderables[1].leading_colon);
    assert_eq!(c.renderables[1].segments, vec!["Initializer"]);
    assert_eq!(c.camera.segments, vec!["cams", "Basic"]);
}

#[test]
fn plan_names_the_facade_and_camera() {
    let plan = match expand_macro(&toks("{ name: Scene, renderables: [shapes::Cube], camera: Basic }")) {
        Ok(p) => p,
        Err(e) => panic!("{}", describe(&e)),
    };
    assert_eq!(plan.name, "Scene");
    assert_eq!(plan.attach.len(), 1);
    assert_eq!(plan.attach[0].method, "with_cube");
    assert_eq!(plan.attach[0].renderable.segments, vec!["shapes", "Cube"]);
    assert_eq!(plan.camera.segments, vec!["Basic"]);
}

#[test]
fn missing_name_is_reported() {
    assert_eq!(error_of("{ renderables: [Cube], camera: Basic }"), "missing name");
}

#[test]
fn missing_renderables_is_reported() {
    assert_eq!(error_of("{ name: R, camera: Basic }"), "missing renderables");
}

#[test]
fn missing_camera_is_reported() {
    assert_eq!(error_of("{ name: R, renderables: [] }"), "missing camera");
}

#[test]
fn empty_block_reports_name_first() {
    assert_eq!(error_of("{ }"), "missing name");
}

#[test]
fn duplicate_name_is_reported() {
    assert_eq!(
        error_of("{ name: A, renderables: [Cube], name: B, camera: Basic }"),
        "duplicate name at 11"
    );
}

#[test]
fn duplicate_camera_is_reported() {
    assert_eq!(error_of("{ camera: A, camera: B }"), "duplicate camera at 5");
}

#[test]
fn unknown_field_is_reported() {
    assert_eq!(error_of("{ name: R, foo: X, renderables: [], camera: C }"), "unknown foo at 5");
}

#[test]
fn generic_renderable_is_refused() {
    // `[Cube, Wrapper<Cube>]`: the second element starts at token 10.
    assert_eq!(
        error_of("{ name: R, renderables: [Cube, Wrapper<Cube>], camera: C }"),
        "invalid renderable at 10"
    );
}

#[test]
fn literal_renderable_is_refused() {
    assert_eq!(error_of("{ name: R, renderables: [42], camera: C }"), "invalid renderable at 8");
}

#[test]
fn malformed_blocks_are_syntax_errors() {
    assert_eq!(error_of("name: R"), "syntax at 0");
    assert_eq!(error_of("{ name R }"), "syntax at 2");
    assert_eq!(error_of("{ name: R, renderables: [Cube,, X], camera: C }"), "syntax at 10");
    assert_eq!(error_of("{ name: R, renderables: Cube, camera: C }"), "syntax at 7");
    // The list never closes: the error stands at the block's closing brace, token 13.
    assert_eq!(error_of("{ name: R, renderables: [Cube, camera: C }"), "syntax at 13");
    assert_eq!(error_of("{ name: 3 }"), "syntax at 3");
}

#[test]
fn empty_renderables_gives_only_the_fixed_methods() {
    assert_eq!(methods_of("{ name: R, renderables: [], camera: C }"), vec!["new", "without", "resize", "render"]);
}

#[test]
fn snake_case_of_type_names() {
    assert_eq!(pascal_to_snake_case("Cube"), "cube");
    assert_eq!(pascal_to_snake_case("CubeWithNormals"), "cube_with_normals");
    assert_eq!(pascal_to_snake_case("Initializer"), "initializer");
    assert_eq!(pascal_to_snake_case("HTTPServer"), "h_t_t_p_server");
    assert_eq!(pascal_to_snake_case("already_snake"), "already_snake");
    assert_eq!(pascal_to_snake_case(""), "");
    assert_eq!(pascal_to_snake_case("ÉtéÀ"), "été_à");
}

#[test]
fn attach_method_names() {
    let c = match parse_config(&toks("{ name: R, renderables: [Cube, a::b::CubeWithNormals, Initializer], camera: C }")) {
        Ok(c) => c,
        Err(e) => panic!("{}", describe(&e)),
    };
    assert_eq!(method_name_for(&c.renderables[0]), "with_cube");
    assert_eq!(method_name_for(&c.renderables[1]), "with_cube_with_normals");
    assert_eq!(method_name_for(&c.renderables[2]), "with_initializer");
    assert_eq!(get_last_segment_name(&c.renderables[1]), Some("cube_with_normals".to_string()));
}

#[test]
fn path_without_segments_falls_back_to_initializer() {
    let p = webgl_rs::config::TypePath { leading_colon: false, segments: Vec::new() };
    assert_eq!(get_last_segment_name(&p), None);
    assert_eq!(method_name_for(&p), "with_initializer");
}
