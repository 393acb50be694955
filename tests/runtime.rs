use webgl_rs::error::Error;
use webgl_rs::registry::Registry;
use webgl_rs::render_pass::{pass_advance, pass_start, PassStep, Viewport};
use webgl_rs::renderable::Initializer;
use webgl_rs::shaders::{matrix_position_normal, position_matrix};

fn keys(r: &Registry<u32>) -> Vec<String> {
    r.keys()
}

fn values(r: &Registry<u32>) -> Vec<u32> {
    (0..r.len()).map(|i| *r.value_at(i)).collect()
}

#[test]
fn upsert_existing_key_keeps_its_position() {
    let mut r: Registry<u32> = Registry::new();
    r.upsert("a".to_string(), 1);
    r.upsert("b".to_string(), 2);
    r.upsert("c".to_string(), 3);
    r.upsert("a".to_string(), 10);
    assert_eq!(keys(&r), vec!["a", "b", "c"]);
    assert_eq!(values(&r), vec![10, 2, 3]);
}

#[test]
fn with_renderable_adds_replaces_and_removes() {
    let mut r: Registry<u32> = Registry::new();
    assert!(r.with_renderable("x".to_string(), Some(1)).is_ok());
    assert!(r.with_renderable("y".to_string(), Some(2)).is_ok());
    assert!(r.with_renderable("x".to_string(), Some(5)).is_ok());
    assert_eq!(keys(&r), vec!["x", "y"]);
    assert_eq!(values(&r), vec![5, 2]);
    assert!(r.with_renderable("x".to_string(), None).is_ok());
    assert_eq!(keys(&r), vec!["y"]);
    assert!(r.with_renderable("x".to_string(), Some(7)).is_ok());
    assert_eq!(keys(&r), vec!["y", "x"]);
}

#[test]
fn removing_absent_key_twice_changes_nothing() {
    let mut r: Registry<u32> = Registry::new();
    r.upsert("a".to_string(), 1);
    r.upsert("b".to_string(), 2);
    assert!(r.with_renderable("zzz".to_string(), None).is_ok());
    assert_eq!(keys(&r), vec!["a", "b"]);
    assert!(r.with_renderable("zzz".to_string(), None).is_ok());
    assert_eq!(keys(&r), vec!["a", "b"]);
    assert_eq!(values(&r), vec![1, 2]);
}

#[test]
fn remove_then_position() {
    let mut r: Registry<u32> = Registry::new();
    r.upsert("a".to_string(), 1);
    r.upsert("b".to_string(), 2);
    r.remove(&"a".to_string());
    assert_eq!(r.position(&"b".to_string()), Some(0));
    assert_eq!(r.position(&"a".to_string()), None);
    assert_eq!(r.key_at(0), "b");
}

/// Runs a pass over entries that report `outcomes`, recording which ones were drawn.
fn run(outcomes: &[Result<(), String>]) -> (Vec<usize>, Result<(), String>) {
    let mut drawn = Vec::new();
    let mut step = pass_start(outcomes.len());
    loop {
        match step {
            PassStep::Draw(i) => {
                drawn.push(i);
                let outcome = outcomes[i].clone().map_err(Error::UnsupportedOperation);
                step = pass_advance(outcomes.len(), i, outcome);
            }
            PassStep::Finished(r) => {
                let r = r.map_err(|e| match e {
                    Error::UnsupportedOperation(s) => s,
                    Error::FromJsValue(s) => s,
                });
                return (drawn, r);
            }
        }
    }
}

#[test]
fn render_stops_at_first_failure() {
    let (drawn, r) = run(&[Ok(()), Err("draw failed".to_string()), Ok(())]);
    assert_eq!(drawn, vec![0, 1]);
    assert_eq!(r, Err("draw failed".to_string()));
}

#[test]
fn render_draws_all_in_order_when_all_succeed() {
    let (drawn, r) = run(&[Ok(()), Ok(()), Ok(())]);
    assert_eq!(drawn, vec![0, 1, 2]);
    assert_eq!(r, Ok(()));
}

#[test]
fn render_of_empty_registry_succeeds() {
    let (drawn, r) = run(&[]);
    assert!(drawn.is_empty());
    assert_eq!(r, Ok(()));
}

#[test]
fn viewport_covers_backing_store() {
    let v = Viewport::covering(800, 600);
    assert_eq!(v, Viewport { x: 0, y: 0, width: 800, height: 600 });
    let big = Viewport::covering(u32::MAX, 1);
    assert_eq!(big.width, i32::MAX);
    assert_eq!(big.height, 1);
}

#[test]
fn host_text_becomes_error_text() {
    match Error::from_host_text(Some("boom".to_string())) {
        Error::FromJsValue(s) => assert_eq!(s, "boom"),
        _ => panic!("wrong variant"),
    }
    match Error::from_host_text(None) {
        Error::FromJsValue(s) => assert_eq!(s, ""),
        _ => panic!("wrong variant"),
    }
}

#[test]
fn shader_sources() {
    let a = position_matrix().ok().unwrap();
    assert!(a.starts_with("#version 300 es"));
    assert!(a.contains("gl_Position = u_matrix * a_position;"));
    assert!(a.contains("void main() {\n"));
    let b = matrix_position_normal().ok().unwrap();
    assert!(b.starts_with("#version 300 es"));
    assert!(b.contains("v_normal = a_normal;"));
}

#[test]
fn initializer_default() {
    let _i: Initializer = Initializer::default();
}
