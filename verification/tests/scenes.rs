use raytracer::canvas::Canvas;

/// The gamma-corrected byte of a linear channel value.
fn quantize(linear: f64) -> u8 {
    let gamma = if linear > 0.0 { linear.sqrt() } else { 0.0 };
    (255.999 * gamma.clamp(0.0, 0.999)) as u8
}

/// The sky gradient along a ray direction: white at the horizon, light blue
/// overhead.
fn sky(direction: [f64; 3]) -> [f64; 3] {
    let length = (direction[0] * direction[0]
        + direction[1] * direction[1]
        + direction[2] * direction[2])
        .sqrt();
    let a = 0.5 * (direction[1] / length + 1.0);
    [
        (1.0 - a) + 0.5 * a,
        (1.0 - a) + 0.7 * a,
        (1.0 - a) + 1.0 * a,
    ]
}

/// Whether a ray from the origin of the camera at `(0, 0, 3)` hits the unit
/// sphere around the world's origin.
fn hits_unit_sphere(direction: [f64; 3]) -> bool {
    let origin = [0.0, 0.0, 3.0];
    let a = direction[0] * direction[0] + direction[1] * direction[1] + direction[2] * direction[2];
    let h = -(origin[0] * direction[0] + origin[1] * direction[1] + origin[2] * direction[2]);
    let c = origin[0] * origin[0] + origin[1] * origin[1] + origin[2] * origin[2] - 1.0;
    let discriminant = h * h - a * c;
    discriminant >= 0.0 && (h - discriminant.sqrt()) / a > 0.001
}

/// The direction through the center of pixel `(i, j)` for a camera that looks
/// down the negative z axis with a viewport two units high at distance one.
fn direction(i: u32, j: u32, width: u32, height: u32) -> [f64; 3] {
    let viewport_height = 2.0;
    let viewport_width = viewport_height * width as f64 / height as f64;
    let x = ((i as f64 + 0.5) / width as f64 - 0.5) * viewport_width;
    let y = (0.5 - (j as f64 + 0.5) / height as f64) * viewport_height;
    [x, y, -1.0]
}

fn parse(text: &str) -> (u32, u32, Vec<[u32; 3]>) {
    let mut lines = text.lines();
    assert_eq!(lines.next(), Some("P3"));
    let extent: Vec<u32> = lines
        .next()
        .unwrap()
        .split(' ')
        .map(|n| n.parse().unwrap())
        .collect();
    assert_eq!(lines.next(), Some("255"));
    let pixels = lines
        .map(|line| {
            let channels: Vec<u32> = line.split(' ').map(|n| n.parse().unwrap()).collect();
            [channels[0], channels[1], channels[2]]
        })
        .collect();
    (extent[0], extent[1], pixels)
}

#[test]
fn single_sphere_image_has_declared_extent_and_byte_channels() {
    // One sample through each pixel's center and a depth of one: a ray that
    // hits the sphere scatters once and is then absorbed.
    let width = 32u32;
    let aspect_ratio = 16.0 / 9.0;
    let height = ((width as f64 / aspect_ratio) as u32).max(1);
    assert_eq!(height, 18);

    let mut canvas = Canvas::new(width, height, [0u8, 0, 0]);
    let mut shadowed = 0;
    for j in 0..height {
        for i in 0..width {
            let ray = direction(i, j, width, height);
            let color = if hits_unit_sphere(ray) {
                shadowed += 1;
                [0.0, 0.0, 0.0]
            } else {
                sky(ray)
            };
            canvas.set_pixel(i, j, [quantize(color[0]), quantize(color[1]), quantize(color[2])]);
        }
    }
    assert!(shadowed > 0);

    let mut out = Vec::new();
    canvas.write_ppm(&mut out);
    let (w, h, pixels) = parse(&String::from_utf8(out).unwrap());
    assert_eq!((w, h), (32, 18));
    assert_eq!(pixels.len(), 32 * 18);
    for pixel in &pixels {
        for channel in pixel {
            assert!(*channel <= 255);
        }
    }
    // The center of the image looks straight at the sphere.
    assert_eq!(pixels[(9 * 32 + 16) as usize], [0, 0, 0]);

    let decoded = image::load_from_memory(&canvas.encode_png().unwrap())
        .unwrap()
        .to_rgb8();
    assert_eq!(decoded.dimensions(), (32, 18));
}

#[test]
fn empty_scene_image_is_the_background_gradient() {
    let width = 8u32;
    let height = 6u32;
    let mut canvas = Canvas::new(width, height, [0u8, 0, 0]);
    for j in 0..height {
        for i in 0..width {
            let color = sky(direction(i, j, width, height));
            canvas.set_pixel(i, j, [quantize(color[0]), quantize(color[1]), quantize(color[2])]);
        }
    }

    let mut out = Vec::new();
    canvas.write_ppm(&mut out);
    let (w, h, pixels) = parse(&String::from_utf8(out).unwrap());
    assert_eq!((w, h), (width, height));
    for j in 0..height {
        for i in 0..width {
            let color = sky(direction(i, j, width, height));
            let expected = [
                quantize(color[0]) as u32,
                quantize(color[1]) as u32,
                quantize(color[2]) as u32,
            ];
            assert_eq!(pixels[(j * width + i) as usize], expected);
        }
    }
    // The sky is bluer at the top of the image than at the bottom.
    assert!(pixels[0][0] < pixels[((height - 1) * width) as usize][0]);
    assert_eq!(pixels[0][2], 255);
}

#[test]
fn same_canvas_is_written_byte_for_byte() {
    let mut canvas = Canvas::new(5, 4, [0u8, 0, 0]);
    for j in 0..4 {
        for i in 0..5 {
            canvas.set_pixel(i, j, [(i * 50) as u8, (j * 60) as u8, (i + j) as u8]);
        }
    }
    let mut first = Vec::new();
    canvas.write_ppm(&mut first);
    let mut second = Vec::new();
    canvas.write_ppm(&mut second);
    assert_eq!(first, second);
    assert_eq!(canvas.encode_png().unwrap(), canvas.encode_png().unwrap());
}

#[test]
fn gamma_bytes_at_the_ends() {
    assert_eq!(quantize(0.0), 0);
    assert_eq!(quantize(-1.0), 0);
    assert_eq!(quantize(1.0), 255);
    assert_eq!(quantize(0.25), 127);
}
