//! End-to-end rendering scenarios and the object-model checks around them.

use scadman::CsgOp;
use scadman::ScadModifier;
use scadman::ScadModifierBody;
use scadman::ScadModifierSentence;
use scadman::ScadObject;
use scadman::ScadObjectDimensionType;
use scadman::ScadObjectTrait;
use scadman::block_2d;
use scadman::block_2d_commented;
use scadman::block_mixed;
use scadman::modifier_2d;
use scadman::modifier_3d;
use scadman::modifier_mixed;
use scadman::primitive_2d;
use scadman::primitive_2d_commented;
use scadman::primitive_3d;
use scadman::try_block_2d;
use scadman::try_block_3d;
use scadman::try_modifier_2d;
use scadman::try_modifier_2d_commented;
use scadman::try_modifier_3d;

fn translate_2d(body: &str) -> ScadModifierBody {
    ScadModifierBody::Sentence(ScadModifierSentence {
        body: body.to_string(),
        children_type: ScadObjectDimensionType::Object2D,
    })
}

#[test]
fn test_primitive_statement() {
    let circle = primitive_2d("circle(r = 3)".to_string());
    assert_eq!(circle.to_code(), "circle(r = 3);\n");
    assert_eq!(circle.get_type(), ScadObjectDimensionType::Object2D);
}

#[test]
fn test_modifier_over_block() {
    let block = block_2d(vec![
        primitive_2d("square(size = 10)".to_string()),
        primitive_2d("circle(r = 5)".to_string()),
    ]);
    let translated = modifier_2d(translate_2d("translate([8, -4])"), block);
    assert_eq!(
        translated.to_code(),
        "translate([8, -4]) {\n  square(size = 10);\n  circle(r = 5);\n}\n"
    );
}

#[test]
fn test_union_of_two() {
    let u = primitive_2d("square(size = 10)".to_string())
        + primitive_2d("square(size = 20)".to_string());
    assert_eq!(
        u.to_code(),
        "union() {\n  square(size = 10);\n  square(size = 20);\n}\n"
    );
}

#[test]
fn test_union_of_three_stays_flat() {
    let u = (primitive_2d("square(size = 10)".to_string())
        + primitive_2d("square(size = 20)".to_string()))
        + primitive_2d("square(size = 30)".to_string());
    assert_eq!(
        u.to_code(),
        "union() {\n  square(size = 10);\n  square(size = 20);\n  square(size = 30);\n}\n"
    );
}

#[test]
fn test_dimension_mismatch_is_refused() {
    // A 2D modifier refuses a 3D child ...
    let cube = primitive_3d("cube(size = 10)".to_string());
    assert!(try_modifier_2d(translate_2d("translate([8, -4])"), cube.clone()).is_none());
    // ... and blocks refuse mixed-dimension siblings before producing any tree.
    let square = primitive_2d("square(size = 10)".to_string());
    assert!(try_block_2d(vec![square.clone(), cube.clone()]).is_none());
    assert!(try_block_3d(vec![cube.clone(), square.clone()]).is_none());
    // The bridging direction works: a projection expects a 3D child.
    let projection = ScadModifierBody::Sentence(ScadModifierSentence {
        body: "projection()".to_string(),
        children_type: ScadObjectDimensionType::Object3D,
    });
    let projected = try_modifier_2d(projection.clone(), cube);
    assert!(projected.is_some());
    assert_eq!(
        projected.unwrap().to_code(),
        "projection()\n  cube(size = 10);\n"
    );
    assert!(try_modifier_2d(projection, square).is_none());
}

#[test]
fn test_commented_nodes() {
    let commented = primitive_2d_commented("circle(r = 3)".to_string(), "a disk");
    assert_eq!(commented.to_code(), "/* a disk */\ncircle(r = 3);\n");

    // A comment moves with its node to any nesting depth, and a commented
    // block no longer starts with a brace, so the modifier indents it.
    let block = block_2d_commented(
        vec![
            primitive_2d("square(size = 10)".to_string()),
            primitive_2d("circle(r = 5)".to_string()),
        ],
        "both shapes",
    );
    let translated = modifier_2d(translate_2d("translate([8, -4])"), block);
    assert_eq!(
        translated.to_code(),
        "translate([8, -4])\n  /* both shapes */\n  {\n    square(size = 10);\n    circle(r = 5);\n  }\n"
    );
}

#[test]
fn test_set_comment_and_commented() {
    let mut square = primitive_2d("square(size = 10)".to_string());
    square.set_comment("first");
    assert_eq!(square.to_code(), "/* first */\nsquare(size = 10);\n");
    let renamed = square.commented("second");
    assert_eq!(renamed.to_code(), "/* second */\nsquare(size = 10);\n");
    let built = ScadObject::new(renamed.body, "third");
    assert_eq!(built.to_code(), "/* third */\nsquare(size = 10);\n");
}

#[test]
fn test_mixed_nodes() {
    let square = primitive_2d("square(size = 10)".to_string());
    let cube = primitive_3d("cube(size = 10)".to_string());
    let colored = modifier_mixed("color(\"red\")".to_string(), square.clone());
    assert_eq!(colored.to_code(), "color(\"red\")\n  square(size = 10);\n");
    assert_eq!(colored.get_type(), ScadObjectDimensionType::ObjectMixed);
    // A Mixed block accepts siblings of any dimension.
    let both = block_mixed(vec![square, cube]);
    assert_eq!(
        both.to_code(),
        "{\n  square(size = 10);\n  cube(size = 10);\n}\n"
    );
}

#[test]
fn test_try_set_child() {
    let square = primitive_2d("square(size = 10)".to_string());
    let circle = primitive_2d("circle(r = 5)".to_string());
    let cube = primitive_3d("cube(size = 10)".to_string());
    let mut modifier = ScadModifier {
        dim: ScadObjectDimensionType::Object2D,
        body: ScadModifierBody::Csg(CsgOp::Union),
        child: Box::new(square),
    };
    assert!(!modifier.try_set_child(cube));
    assert_eq!(modifier.child.to_code(), "square(size = 10);\n");
    assert!(modifier.try_set_child(circle));
    assert_eq!(modifier.child.to_code(), "circle(r = 5);\n");
}

#[test]
fn test_commented_modifiers() {
    let square = primitive_2d("square(size = 10)".to_string());
    let cube = primitive_3d("cube(size = 10)".to_string());
    let rotated = try_modifier_2d_commented(
        translate_2d("rotate(45)"),
        square,
        "tilted",
    );
    assert_eq!(
        rotated.unwrap().to_code(),
        "/* tilted */\nrotate(45)\n  square(size = 10);\n"
    );
    let scaled = modifier_3d(
        ScadModifierBody::Sentence(ScadModifierSentence {
            body: "scale([2, 2, 2])".to_string(),
            children_type: ScadObjectDimensionType::Object3D,
        }),
        cube,
    );
    assert_eq!(scaled.to_code(), "scale([2, 2, 2])\n  cube(size = 10);\n");
    assert!(try_modifier_3d(
        ScadModifierBody::Csg(CsgOp::Union),
        primitive_2d("square(size = 1)".to_string())
    )
    .is_none());
}
