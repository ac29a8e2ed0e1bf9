use megavertex::fixed::FP;
use megavertex::mat4::Mat4;
use megavertex::vec3::Vec3;

/// Performs an equality assertion on the individual components of a
/// vector, after rounding to whole units.  This keeps the tests stable
/// under the small rounding of fixed-point trigonometry.
fn assert_vec_eq(expected: Vec3, result: Vec3) {
    assert_eq!((result.x as f64 / FP as f64).round(), (expected.x as f64 / FP as f64).round());
    assert_eq!((result.y as f64 / FP as f64).round(), (expected.y as f64 / FP as f64).round());
    assert_eq!((result.z as f64 / FP as f64).round(), (expected.z as f64 / FP as f64).round());
}

fn units(m: [[i64; 4]; 4]) -> Mat4 {
    let mut r = [[0i64; 4]; 4];
    let mut i = 0;
    while i < 4 {
        let mut j = 0;
        while j < 4 {
            r[i][j] = m[i][j] * FP;
            j += 1;
        }
        i += 1;
    }
    Mat4 { m: r }
}

#[test]
fn create_identity_matrix() {
    let expected = units([
        [1, 0, 0, 0],
        [0, 1, 0, 0],
        [0, 0, 1, 0],
        [0, 0, 0, 1],
    ]);
    let result = Mat4::identity();
    assert_eq!(expected, result);
}

#[test]
fn multiply_matrix() {
    let expected = units([
        [20, 19, 16, 10],
        [24, 22, 18, 11],
        [31, 28, 22, 13],
        [40, 36, 28, 16],
    ]);
    let mat_a = units([
        [1, 2, 3, 4],
        [2, 2, 3, 4],
        [3, 3, 3, 4],
        [4, 4, 4, 4],
    ]);
    let mat_b = units([
        [4, 3, 2, 1],
        [3, 3, 2, 1],
        [2, 2, 2, 1],
        [1, 1, 1, 1],
    ]);
    let result = mat_a.mult(mat_b);
    assert_eq!(expected, result);
}

#[test]
fn transform_vector() {
    let expected = Vec3::new(4 * FP, 5 * FP, 6 * FP);
    let transformation_matrix = units([
        [3, 0, 0, 1],
        [0, 3, 0, 2],
        [0, 0, 3, 3],
        [0, 0, 0, 1],
    ]);
    let result = transformation_matrix.transform(Vec3::new(FP, FP, FP));
    assert_eq!(expected, result);
}

#[test]
fn translate_vector() {
    let expected = Vec3::new(FP, 2 * FP, 3 * FP);
    let result = Mat4::identity()
        .translate(Vec3::new(0, FP, 2 * FP))
        .transform(Vec3::new(FP, FP, FP));
    assert_vec_eq(expected, result);
    // The fixed-point composition is in fact exact.
    assert_eq!(expected, result);
}

#[test]
fn rotate_vector_about_x() {
    // 0.87 radians in fixed point.
    let expected = Vec3::new(FP, -7832, 92351);
    let axis = Vec3::new(FP, 0, 0);
    let result = Mat4::identity().rotate(axis, 57016).transform(Vec3::new(FP, FP, FP));
    assert_vec_eq(result, expected);
}

#[test]
fn rotate_vector_about_xy() {
    let expected = Vec3::new(FP, FP, -FP);
    let axis = Vec3::new(FP, FP, 0);
    let result = Mat4::identity()
        .rotate(axis, megavertex::trig::PI_FX)
        .transform(Vec3::new(FP, FP, FP));
    assert_vec_eq(expected, result)
}

#[test]
fn vec3_add_vector() {
    let expected = Vec3::new(10 * FP, 10 * FP, 10 * FP);
    let initial = Vec3::new(5 * FP, 5 * FP, 5 * FP);
    let result = initial.add(initial);
    assert_eq!(expected, result);
}

#[test]
fn sub_vector() {
    let expected = Vec3::new(10 * FP, 10 * FP, 10 * FP);
    let initial = Vec3::new(15 * FP, 15 * FP, 15 * FP);
    let result = initial.sub(Vec3::new(5 * FP, 5 * FP, 5 * FP));
    assert_eq!(expected, result);
}

#[test]
fn vec3_cross_product() {
    let expected = Vec3::new(-3 * FP, 6 * FP, -3 * FP);
    let initial = Vec3::new(2 * FP, 3 * FP, 4 * FP);
    let result = initial.cross_product(Vec3::new(5 * FP, 6 * FP, 7 * FP));
    assert_eq!(expected, result);
}

#[test]
fn scale_vector() {
    let expected = Vec3::new(10 * FP, 10 * FP, 10 * FP);
    let initial = Vec3::new(2 * FP, 2 * FP, 2 * FP);
    let result = initial.scale(5 * FP);
    assert_eq!(expected, result);
}

#[test]
fn calc_length() {
    let expected = 3 * FP;
    let initial = Vec3::new(FP, 2 * FP, 2 * FP);
    let result = initial.length();
    assert_eq!(expected, result);
}

#[test]
fn normalise() {
    let expected = Vec3::new(FP, 0, 0);
    let initial = Vec3::new(7 * FP, 0, 0);
    let result = initial.normalise();
    assert_eq!(expected, result);
}

#[test]
fn identity_transform_returns_input() {
    let v = Vec3::new(12345, -777777, 31415926);
    let result = Mat4::identity().transform(v);
    assert_eq!(v, result);
}

#[test]
fn sine_and_cosine_fixed_values() {
    assert_eq!(megavertex::trig::sin_fx(0), 0);
    assert_eq!(megavertex::trig::sin_fx(megavertex::trig::PI_FX), 0);
    // The degree-seven polynomial reaches 65526/65536 at a quarter
    // turn, a few parts in ten thousand under one.
    assert_eq!(megavertex::trig::sin_fx(megavertex::trig::HALF_PI_FX), 65526);
    assert_eq!(megavertex::trig::cos_fx(0), 65526);
}
