use color_palette::color::rgb_from_channels;
use color_palette::histogram::{bin_index, Histogram, HISTOGRAM_SIZE};
use color_palette::cluster::Clustering;
use color_palette::palette::{
    extract_color_palette, kmean_cluster_colors, palette_bytes, Step, PALETTE_SIZE, ROUND_CAP,
};
use std::time::Instant;

type Lab = [f32; 3];

fn linear(c: f32) -> f32 {
    if c > 0.04045 {
        ((c + 0.055) / 1.055).powf(2.4)
    } else {
        c / 12.92
    }
}

fn rgb2xyz(rgb: &[u8; 3]) -> [f32; 3] {
    let r = linear(rgb[0] as f32 / 255.0) * 100.0;
    let g = linear(rgb[1] as f32 / 255.0) * 100.0;
    let b = linear(rgb[2] as f32 / 255.0) * 100.0;
    [
        r * 0.4124 + g * 0.3576 + b * 0.1805,
        r * 0.2126 + g * 0.7152 + b * 0.0722,
        r * 0.0193 + g * 0.1192 + b * 0.9505,
    ]
}

fn cube_root(t: f32) -> f32 {
    if t > 0.008856 {
        t.powf(1. / 3.)
    } else {
        7.787 * t + 16. / 116.
    }
}

fn xyz2lab(xyz: &[f32; 3]) -> Lab {
    let new_x = xyz[0] / 95.047;
    let new_y = xyz[1] / 100.0;
    let new_z = xyz[2] / 108.883;
    let l = if new_y > 0.008856 {
        116.0 * new_y.powf(1.0 / 3.0) - 16.0
    } else {
        903.3 * new_y
    };
    let new_x = cube_root(new_x);
    let new_z = cube_root(new_z);
    let new_y = cube_root(new_y);
    [l, 500. * (new_x - new_y), 200. * (new_y - new_z)]
}

fn rgb2lab(rgb: &[u8; 3]) -> Lab {
    xyz2lab(&rgb2xyz(rgb))
}

fn cubed(f: f32) -> f32 {
    let t = f.powf(3.0);
    if t > 0.008856 {
        t
    } else {
        (f - 16. / 116.) / 7.787
    }
}

fn lab2xyz(lab: &Lab) -> [f32; 3] {
    let p = (lab[0] + 16.) / 116.;
    [
        95.047 * cubed(p + lab[1] / 500.),
        100.0 * cubed(p),
        108.883 * cubed(p - lab[2] / 200.),
    ]
}

fn encoded(c: f32) -> f32 {
    if c > 0.0031308 {
        1.055 * c.powf(1. / 2.4) - 0.055
    } else {
        12.92 * c
    }
}

fn xyz2rgb(xyz: &[f32; 3]) -> [u8; 3] {
    let x = xyz[0] / 100.0;
    let y = xyz[1] / 100.0;
    let z = xyz[2] / 100.0;
    let r = encoded(x * 3.2406 + y * -1.5372 + z * -0.4986);
    let g = encoded(x * -0.9689 + y * 1.8758 + z * 0.0415);
    let b = encoded(x * 0.0557 + y * -0.2040 + z * 1.0570);
    rgb_from_channels(&[(r * 255.0) as i64, (g * 255.0) as i64, (b * 255.0) as i64])
}

fn lab2rgb(lab: &Lab) -> [u8; 3] {
    xyz2rgb(&lab2xyz(lab))
}

fn mean(sum: &Lab, weight: u64) -> Lab {
    let weight = weight as f32;
    [sum[0] / weight, sum[1] / weight, sum[2] / weight]
}

fn distance(a: &Lab, b: &Lab) -> f32 {
    let x = a[0] - b[0];
    let y = a[1] - b[1];
    let z = a[2] - b[2];
    x * x + y * y + z * z
}

fn lab_sums(image: &[u8]) -> Vec<Lab> {
    let mut sums: Vec<Lab> = vec![[0., 0., 0.]; HISTOGRAM_SIZE];
    for rgb in image.chunks_exact(3) {
        let lab = rgb2lab(&[rgb[0], rgb[1], rgb[2]]);
        let index = bin_index(rgb[0], rgb[1], rgb[2]);
        sums[index][0] += lab[0];
        sums[index][1] += lab[1];
        sums[index][2] += lab[2];
    }
    sums
}

fn seeds_of(image: &[u8], palette_size: usize, sums: &[Lab]) -> (Vec<usize>, Vec<Lab>) {
    let mut extraction = extract_color_palette(image, palette_size);
    let mut ranking: Vec<f32> = extraction
        .histogram()
        .weights()
        .iter()
        .map(|weight| *weight as f32)
        .collect();
    let mut seeds: Vec<Lab> = Vec::new();
    loop {
        let bits: Vec<u32> = ranking.iter().map(|weight| weight.to_bits()).collect();
        let Some(index) = extraction.select_seed(&bits) else {
            break;
        };
        let seed = mean(&sums[index], extraction.histogram().weight(index));
        ranking[index] = 0.0;
        seeds.push(seed);
        for other in 0..HISTOGRAM_SIZE {
            let weight = extraction.histogram().weight(other);
            if weight > 0 {
                let target = mean(&sums[other], weight);
                ranking[other] *= 1.0 - (-(distance(&seed, &target) / 3650.0)).exp();
            }
        }
    }
    (extraction.seeds().clone(), seeds)
}

fn table_of(centroids: &[Lab], sums: &[Lab], hist: &Histogram) -> Vec<Vec<u32>> {
    let mut table: Vec<Vec<u32>> = Vec::new();
    for index in 0..HISTOGRAM_SIZE {
        let weight = hist.weight(index);
        if weight > 0 {
            let current = mean(&sums[index], weight);
            table.push(
                centroids.iter().map(|centroid| distance(centroid, &current).to_bits()).collect(),
            );
        } else {
            table.push(Vec::new());
        }
    }
    table
}

fn centroids_of(seeds: &[Lab], sums: &[Lab], hist: &Histogram) -> (Vec<Lab>, usize) {
    let mut centroids: Vec<Lab> = seeds.to_vec();
    let mut clustering = Clustering::new(centroids.len());
    let mut rounds: usize = 0;
    loop {
        let table = table_of(&centroids, sums, hist);
        let step = kmean_cluster_colors(&mut clustering, rounds, hist, &table);
        rounds += 1;
        let mut totals: Vec<Lab> = vec![[0., 0., 0.]; centroids.len()];
        for index in 0..HISTOGRAM_SIZE {
            let cluster = clustering.assignment()[index];
            if hist.weight(index) > 0 && cluster < totals.len() {
                totals[cluster][0] += sums[index][0];
                totals[cluster][1] += sums[index][1];
                totals[cluster][2] += sums[index][2];
            }
        }
        for (cluster, centroid) in centroids.iter_mut().enumerate() {
            let weight = clustering.weights()[cluster];
            if weight > 0 {
                *centroid = mean(&totals[cluster], weight);
            }
        }
        if step == Step::Done {
            break;
        }
    }
    (centroids, rounds)
}

fn palette_of(image: &[u8], palette_size: usize) -> Vec<[u8; 3]> {
    let sums = lab_sums(image);
    let (_, seeds) = seeds_of(image, palette_size, &sums);
    let hist = Histogram::compute(image);
    centroids_of(&seeds, &sums, &hist).0.iter().map(|lab| lab2rgb(lab)).collect()
}

fn near(a: &[u8; 3], b: &[u8; 3], by: i32) -> bool {
    (0..3).all(|channel| (a[channel] as i32 - b[channel] as i32).abs() <= by)
}

#[test]
fn it_works() {
    let width: u32 = 400;
    let height: u32 = 320;
    let mut image: Vec<u8> = Vec::with_capacity((width * height * 3) as usize);
    for y in 0..height {
        for x in 0..width {
            image.push((x * 255 / (width - 1)) as u8);
            image.push((y * 255 / (height - 1)) as u8);
            image.push(((x + y) % 256) as u8);
        }
    }

    let now = Instant::now();
    let palette = palette_of(&image, PALETTE_SIZE);
    let elapsed = now.elapsed();

    println!("{:?}", palette);

    println!("Elapsed: {:.2?}", elapsed);
    assert_eq!(palette.len(), PALETTE_SIZE);
}

#[test]
fn test_color_conversion() {
    let rgb = [128, 30, 156];
    assert_eq!(rgb, lab2rgb(&rgb2lab(&rgb)));
}

#[test]
fn two_colours_give_a_red_and_a_blue() {
    let image: Vec<u8> = vec![255, 0, 0, 255, 0, 0, 0, 0, 255, 0, 0, 255];
    let sums = lab_sums(&image);
    let (bins, _) = seeds_of(&image, 2, &sums);
    assert_eq!(bins, vec![3840usize, 15]);
    let palette = palette_of(&image, 2);
    assert_eq!(palette.len(), 2);
    assert!(near(&palette[0], &[255, 0, 0], 1), "{:?}", palette);
    assert!(near(&palette[1], &[0, 0, 255], 1), "{:?}", palette);
    assert_eq!(palette, vec![[254u8, 0, 0], [0, 0, 255]]);
    assert_eq!(palette_bytes(&palette), vec![254u8, 0, 0, 0, 0, 255]);
    assert_eq!(palette[0], lab2rgb(&rgb2lab(&[255, 0, 0])));
    assert_eq!(palette[1], lab2rgb(&rgb2lab(&[0, 0, 255])));
    assert_eq!(palette_bytes(&palette).len(), 6);
}

#[test]
fn two_colours_and_room_for_five() {
    let image: Vec<u8> = vec![255, 0, 0, 255, 0, 0, 0, 0, 255, 0, 0, 255];
    let palette = palette_of(&image, PALETTE_SIZE);
    assert_eq!(palette.len(), 2);
}

#[test]
fn one_colour_gives_that_colour() {
    let single: Vec<u8> = vec![128, 30, 156];
    assert_eq!(palette_of(&single, PALETTE_SIZE), vec![[128u8, 30, 156]]);
    let mut image: Vec<u8> = Vec::new();
    for _ in 0..50 {
        image.extend_from_slice(&[128, 30, 156]);
    }
    let palette = palette_of(&image, PALETTE_SIZE);
    assert_eq!(palette.len(), 1);
    assert!(near(&palette[0], &[128, 30, 156], 1), "{:?}", palette);
}

#[test]
fn empty_image_gives_no_colour() {
    assert!(palette_of(&[], PALETTE_SIZE).is_empty());
    assert!(palette_of(&[1, 2], PALETTE_SIZE).is_empty());
}

#[test]
fn same_input_gives_the_same_palette() {
    let mut image: Vec<u8> = Vec::new();
    for i in 0..600u32 {
        image.push((i * 7 % 256) as u8);
        image.push((i * 13 % 256) as u8);
        image.push((i * 29 % 256) as u8);
    }
    let one = palette_of(&image, PALETTE_SIZE);
    let other = palette_of(&image.clone(), PALETTE_SIZE);
    assert_eq!(one, other);
    assert_eq!(palette_bytes(&one), palette_bytes(&other));
}

#[test]
fn palette_is_no_larger_than_asked_for() {
    let mut image: Vec<u8> = Vec::new();
    for i in 0..600u32 {
        image.push((i * 7 % 256) as u8);
        image.push((i * 13 % 256) as u8);
        image.push((i * 29 % 256) as u8);
    }
    for palette_size in 0..8usize {
        let palette = palette_of(&image, palette_size);
        assert_eq!(palette.len(), palette_size);
        assert_eq!(palette_bytes(&palette).len(), 3 * palette_size);
    }
}

#[test]
fn palette_is_no_larger_than_the_occupied_bins() {
    let image: Vec<u8> = vec![0, 0, 0, 255, 255, 255, 0, 255, 0, 1, 1, 1, 254, 254, 254];
    let hist = Histogram::compute(&image);
    assert_eq!(hist.non_empty_bins(), 3);
    let palette = palette_of(&image, PALETTE_SIZE);
    assert_eq!(palette.len(), 3);
}

#[test]
fn refinement_goes_on_to_the_fixed_point() {
    let image: Vec<u8> = vec![0, 0, 0, 0, 0, 16, 0, 0, 32];
    let hist = Histogram::compute(&image);
    let mut sums: Vec<Lab> = vec![[0., 0., 0.]; HISTOGRAM_SIZE];
    sums[0] = [10., 0., 0.];
    sums[1] = [20., 0., 0.];
    sums[2] = [50., 0., 0.];
    let seeds: Vec<Lab> = vec![[10.0, 0.0, 0.0], [20.0, 0.0, 0.0]];
    let (centroids, rounds) = centroids_of(&seeds, &sums, &hist);
    assert_eq!(centroids, vec![[15.0f32, 0.0, 0.0], [50.0, 0.0, 0.0]]);
    assert_eq!(rounds, 3);
    let (again, more) = centroids_of(&centroids, &sums, &hist);
    assert_eq!(again, centroids);
    assert_eq!(more, 2);
}

#[test]
fn refinement_ends_within_the_cap() {
    let mut image: Vec<u8> = Vec::new();
    for i in 0..600u32 {
        image.push((i * 7 % 256) as u8);
        image.push((i * 13 % 256) as u8);
        image.push((i * 29 % 256) as u8);
    }
    let sums = lab_sums(&image);
    let (_, seeds) = seeds_of(&image, PALETTE_SIZE, &sums);
    let hist = Histogram::compute(&image);
    let (centroids, rounds) = centroids_of(&seeds, &sums, &hist);
    assert_eq!(centroids.len(), seeds.len());
    assert!(1 <= rounds && rounds <= ROUND_CAP);
}

#[test]
fn black_comes_back_as_black() {
    assert_eq!(lab2rgb(&rgb2lab(&[0, 0, 0])), [0, 0, 0]);
    assert_eq!(rgb2lab(&[0, 0, 0]), [0.0f32, 0.0, 0.0]);
}

#[test]
fn colours_come_back_within_one_of_each_channel() {
    let mut exact: usize = 0;
    let mut total: usize = 0;
    for r in (0..=255u8).step_by(5) {
        for g in (0..=255u8).step_by(5) {
            for b in (0..=255u8).step_by(5) {
                let back = lab2rgb(&rgb2lab(&[r, g, b]));
                assert!(near(&back, &[r, g, b], 1), "{:?} came back as {:?}", [r, g, b], back);
                total += 1;
                if back == [r, g, b] {
                    exact += 1;
                }
            }
        }
    }
    assert_eq!(total, 52 * 52 * 52);
    assert!(2 * exact > total);
    assert_eq!(lab2rgb(&rgb2lab(&[255, 0, 0])), [254, 0, 0]);
    assert_eq!(lab2rgb(&rgb2lab(&[1, 2, 3])), [1, 2, 3]);
    assert_eq!(lab2rgb(&rgb2lab(&[255, 255, 255])), [255, 255, 255]);
}
