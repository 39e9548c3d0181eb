use raytracer::image::ImageSize;
use raytracer::ppm::encode;
use raytracer::ppm::header;
use raytracer::ppm::write_color;
use raytracer::ppm::Pixel;

fn pixel(red: u8, green: u8, blue: u8) -> Pixel {
    Pixel { red, green, blue }
}

fn text(bytes: Vec<u8>) -> String {
    String::from_utf8(bytes).unwrap()
}

#[test]
fn header_of_the_default_image() {
    let size = ImageSize::new(400, 225).unwrap();
    assert_eq!(text(header(&size)), "P3\n400 225\n255\n");
}

#[test]
fn header_of_the_smallest_and_the_largest_image() {
    assert_eq!(text(header(&ImageSize::new(2, 2).unwrap())), "P3\n2 2\n255\n");
    assert_eq!(
        text(header(&ImageSize::new(u32::MAX, 10).unwrap())),
        "P3\n4294967295 10\n255\n"
    );
    assert_eq!(text(header(&ImageSize::new(100, 1000).unwrap())), "P3\n100 1000\n255\n");
}

#[test]
fn write_color_appends_one_line() {
    let mut out = b"P3\n".to_vec();
    write_color(&mut out, pixel(128, 128, 255));
    assert_eq!(text(out.clone()), "P3\n128 128 255\n");
    write_color(&mut out, pixel(0, 9, 10));
    assert_eq!(text(out), "P3\n128 128 255\n0 9 10\n");
}

#[test]
fn write_color_writes_every_level_as_the_standard_library_does() {
    for level in 0..=255u8 {
        let mut out = Vec::new();
        write_color(&mut out, pixel(level, 255 - level, level / 2));
        assert_eq!(text(out), format!("{} {} {}\n", level, 255 - level, level / 2));
    }
}

#[test]
fn encode_writes_header_and_pixels_in_order() {
    let size = ImageSize::new(2, 2).unwrap();
    let pixels = vec![pixel(1, 2, 3), pixel(40, 50, 60), pixel(0, 0, 0), pixel(255, 255, 255)];
    let file = encode(&size, &pixels).unwrap();
    assert_eq!(text(file), "P3\n2 2\n255\n1 2 3\n40 50 60\n0 0 0\n255 255 255\n");
}

#[test]
fn encode_wants_one_pixel_for_every_place() {
    let size = ImageSize::new(2, 2).unwrap();
    assert!(encode(&size, &vec![]).is_none());
    assert!(encode(&size, &vec![pixel(1, 2, 3); 3]).is_none());
    assert!(encode(&size, &vec![pixel(1, 2, 3); 5]).is_none());
    assert!(encode(&size, &vec![pixel(1, 2, 3); 4]).is_some());
}

#[test]
fn the_file_has_three_header_lines_and_one_line_for_every_pixel() {
    let size = ImageSize::new(13, 7).unwrap();
    let pixels: Vec<Pixel> =
        (0..91u32).map(|k| pixel((k * 3) as u8, (255 - k) as u8, (k * k) as u8)).collect();
    let file = text(encode(&size, &pixels).unwrap());
    assert!(file.ends_with('\n'));
    let lines: Vec<&str> = file.lines().collect();
    assert_eq!(lines.len(), 3 + 13 * 7);
    assert_eq!(lines[0], "P3");
    assert_eq!(lines[1], "13 7");
    assert_eq!(lines[2], "255");
    for (k, line) in lines[3..].iter().enumerate() {
        let numbers: Vec<u32> = line.split(' ').map(|field| field.parse().unwrap()).collect();
        assert_eq!(numbers.len(), 3);
        assert!(numbers.iter().all(|&n| n <= 255));
        assert_eq!(numbers[0], pixels[k].red as u32);
        assert_eq!(numbers[1], pixels[k].green as u32);
        assert_eq!(numbers[2], pixels[k].blue as u32);
    }
}

#[test]
fn encode_is_the_header_followed_by_the_lines_of_write_color() {
    let size = ImageSize::new(3, 2).unwrap();
    let pixels: Vec<Pixel> = (0..6u8).map(|k| pixel(k, 10 * k, 50 * k)).collect();
    let mut expected = header(&size);
    for p in &pixels {
        write_color(&mut expected, *p);
    }
    assert_eq!(encode(&size, &pixels), Some(expected));
}
