use raytracer::ppm::ppm_text;

#[test]
fn ppm_ends_with_a_line_break() {
    let ppm = ppm_text(2, 1, &vec![vec![1, 22, 255, 0, 9, 100]]);
    assert_eq!(ppm, "P3\n2 1\n255\n1 22 255 0 9 100 \n");
}

#[test]
fn ppm_lines_stay_within_seventy_characters() {
    let ppm = ppm_text(40, 1, &vec![vec![7u8; 120]]);
    for line in ppm.lines() {
        assert!(line.len() <= 70);
    }
}

#[test]
fn ppm_of_an_empty_raster() {
    assert_eq!(ppm_text(0, 0, &vec![]), "P3\n0 0\n255\n");
}

#[test]
fn ppm_writes_large_sizes_in_full() {
    let ppm = ppm_text(1920, 1080, &vec![]);
    assert_eq!(ppm, "P3\n1920 1080\n255\n");
}
