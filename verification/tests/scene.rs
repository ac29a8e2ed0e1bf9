use megavertex::camera::Camera;
use megavertex::fixed::FP;
use megavertex::mat4::Mat4;
use megavertex::object::{get_face_data, Face, ModelLoadError, Object, Texture};
use megavertex::renderer::Renderer;
use megavertex::trig::HALF_PI_FX;
use megavertex::vec2::Vec2;
use megavertex::vec3::Vec3;
use megavertex::world::World;

fn empty_object() -> Object {
    Object {
        vertices: vec![],
        tex_coords: vec![],
        normals: vec![],
        faces: vec![],
        texture: Texture { width: 0, height: 0, pixels: vec![] },
        transformation: Mat4::identity(),
    }
}

#[test]
fn add_object() {
    let mut world = World::new();
    let object = empty_object();
    world.add_object(object, Vec3::origin());
    assert_eq!(world.objects.len(), 1);
}

#[test]
fn add_object_overwrites_transform() {
    let mut world = World::new();
    let mut object = empty_object();
    object.transform(Mat4::identity().translate(Vec3::new(9 * FP, 0, 0)));
    world.add_object(object, Vec3::new(FP, 2 * FP, 3 * FP));
    let placed = &world.objects[0];
    // The placement is a pure translation; the earlier transform is
    // gone.
    assert_eq!(placed.transformation.m[0][3], FP);
    assert_eq!(placed.transformation.m[1][3], 2 * FP);
    assert_eq!(placed.transformation.m[2][3], 3 * FP);
    assert_eq!(placed.transformation.m[0][0], FP);
    assert_eq!(placed.transformation.m[3][3], FP);
}

#[test]
fn object_transform_composes() {
    let mut object = empty_object();
    object.transform(Mat4::identity().translate(Vec3::new(FP, 0, 0)));
    object.transform(Mat4::identity().translate(Vec3::new(0, 2 * FP, 0)));
    // Composition keeps both offsets: the first translation is
    // applied last.
    let p = object.transformation.transform(Vec3::origin());
    assert_eq!(p, Vec3::new(FP, 2 * FP, 0));
}

#[test]
fn texture_sampling_wraparound() {
    let tex = Texture { width: 2, height: 2, pixels: vec![1, 2, 3, 4] };
    // Sampling at the far corner (one, one) wraps the row-major index
    // modulo the buffer length instead of falling off the end.
    let col = tex.sample(Vec2::new(FP, FP));
    assert_eq!(col, 3);
    // In-range samples hit their own texel.
    assert_eq!(tex.sample(Vec2::new(0, 0)), 1);
    assert_eq!(tex.sample(Vec2::new(FP / 2, 0)), 2);
    assert_eq!(tex.sample(Vec2::new(0, FP / 2)), 3);
    assert_eq!(tex.sample(Vec2::new(FP / 2, FP / 2)), 4);
}

#[test]
fn decode_png_round_trip() {
    let mut bytes: Vec<u8> = Vec::new();
    {
        let mut encoder = png::Encoder::new(&mut bytes, 2, 1);
        encoder.set_color(png::ColorType::Rgb);
        encoder.set_depth(png::BitDepth::Eight);
        let mut writer = encoder.write_header().unwrap();
        writer.write_image_data(&[1, 2, 3, 4, 5, 6]).unwrap();
    }
    let tex = Texture::from_png_bytes(&bytes).unwrap();
    assert_eq!(tex.width, 2);
    assert_eq!(tex.height, 1);
    assert_eq!(tex.pixels, vec![0x010203, 0x040506]);
}

#[test]
fn decode_png_rejects_garbage() {
    let r = Texture::from_png_bytes(b"not a png stream");
    assert!(matches!(r, Err(ModelLoadError::IoError)));
}

#[test]
fn face_data_fields() {
    assert_eq!(get_face_data(b"1/2/3", 0), Ok(1));
    // The standard unsigned parse accepts a leading plus sign.
    assert_eq!(get_face_data(b"+7", 0), Ok(7));
    assert_eq!(get_face_data(b"1/2/3", 1), Ok(2));
    assert_eq!(get_face_data(b"1/2/3", 2), Ok(3));
    // Too few fields yield zero rather than an error.
    assert_eq!(get_face_data(b"12", 1), Ok(0));
    assert_eq!(get_face_data(b"7", 0), Ok(7));
}

#[test]
fn face_data_parse_errors() {
    assert_eq!(get_face_data(b"a/2", 0), Err(ModelLoadError::ParseError));
    // An empty field between two separators does not parse.
    assert_eq!(get_face_data(b"1//3", 1), Err(ModelLoadError::ParseError));
    assert_eq!(get_face_data(b"", 0), Err(ModelLoadError::ParseError));
}

#[test]
fn camera_pitch_clamps() {
    let mut cam = Camera::new(Vec3::new(0, 0, 20 * FP));
    cam.rotate(Vec3::new(10 * HALF_PI_FX, 0, 0));
    assert_eq!(cam.rot.x, HALF_PI_FX);
    cam.rotate(Vec3::new(-30 * HALF_PI_FX, 0, 0));
    assert_eq!(cam.rot.x, -HALF_PI_FX);
}

fn axis_aligned_camera() -> Camera {
    Camera {
        pos: Vec3::new(0, 0, 20 * FP),
        forward: Vec3::new(0, 0, -FP),
        right: Vec3::new(FP, 0, 0),
        up: Vec3::new(0, FP, 0),
        rot: Vec3::new(0, megavertex::trig::TWO_PI_FX - HALF_PI_FX, 0),
    }
}

#[test]
fn camera_translate_moves_horizontally() {
    let mut cam = axis_aligned_camera();
    cam.translate(FP, 0);
    assert_eq!(cam.pos, Vec3::new(0, 0, 19 * FP));
    cam.translate(0, 2 * FP);
    assert_eq!(cam.pos, Vec3::new(2 * FP, 0, 19 * FP));
}

#[test]
fn look_at_maps_origin_to_camera_space() {
    let cam = axis_aligned_camera();
    let view = cam.look_at();
    let p = view.transform(Vec3::origin());
    // A camera twenty units up the depth axis sees the origin twenty
    // units away along its forward direction.
    assert_eq!(p, Vec3::new(0, 0, -20 * FP));
}

#[test]
fn render_world_draws_a_face() {
    let mut renderer = Renderer::new(20, 20);
    let cam = axis_aligned_camera();
    let mut world = World::new();
    let object = Object {
        // A large triangle one unit in front of the camera.
        vertices: vec![
            Vec3::new(-60 * FP, -60 * FP, 19 * FP),
            Vec3::new(60 * FP, -60 * FP, 19 * FP),
            Vec3::new(0, 60 * FP, 19 * FP),
        ],
        tex_coords: vec![Vec2::new(0, 0), Vec2::new(0, 0), Vec2::new(0, 0)],
        normals: vec![],
        faces: vec![Face {
            vertices: (0, 1, 2),
            tex_coords: (0, 1, 2),
            normals: (0, 0, 0),
        }],
        texture: Texture { width: 1, height: 1, pixels: vec![0x123456] },
        transformation: Mat4::identity(),
    };
    world.add_object(object, Vec3::origin());
    cam.render_world(&mut renderer, &world, 0);
    // The centre of the screen is covered by the triangle.
    assert_eq!(renderer.buffer[10 * 20 + 10], 0x123456);
}

#[test]
fn render_world_keeps_orientation() {
    // A triangle above the camera axis must land in the upper half of
    // the screen: the perspective divide keeps the sign of y / z.
    let mut renderer = Renderer::new(20, 20);
    let cam = axis_aligned_camera();
    let mut world = World::new();
    let object = Object {
        vertices: vec![
            Vec3::new(0, 20 * FP, 19 * FP),
            Vec3::new(-30 * FP, 10 * FP, 19 * FP),
            Vec3::new(30 * FP, 10 * FP, 19 * FP),
        ],
        tex_coords: vec![Vec2::new(0, 0), Vec2::new(0, 0), Vec2::new(0, 0)],
        normals: vec![],
        faces: vec![Face {
            vertices: (0, 1, 2),
            tex_coords: (0, 1, 2),
            normals: (0, 0, 0),
        }],
        texture: Texture { width: 1, height: 1, pixels: vec![0xBEEF] },
        transformation: Mat4::identity(),
    };
    world.add_object(object, Vec3::origin());
    cam.render_world(&mut renderer, &world, 0);
    assert_eq!(renderer.buffer[3 * 20 + 10], 0xBEEF);
    for row in 10..20 {
        for col in 0..20 {
            assert_eq!(renderer.buffer[row * 20 + col], 0);
        }
    }
}
