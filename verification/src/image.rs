use vstd::prelude::*;
use crate::hittable::HitRecord;
use crate::material::Scatter;
use crate::ray::Ray;
use crate::vec3::Vec3;

verus! {

/// How much work the renderer spends on each pixel.
#[derive(Clone, Copy)]
pub struct RayTraceOptions {
    pub samples_per_pixel: u32,
    pub max_depth: u32,
}

impl RayTraceOptions {
    pub fn new(samples_per_pixel: u32, max_depth: u32) -> (options: Self)
        ensures
            options.samples_per_pixel == samples_per_pixel,
            options.max_depth == max_depth,
    {
        Self { samples_per_pixel, max_depth }
    }
}

/// The character of a decimal digit.
pub open spec fn digit_char(d: nat) -> char {
    if d == 0 {
        '0'
    } else if d == 1 {
        '1'
    } else if d == 2 {
        '2'
    } else if d == 3 {
        '3'
    } else if d == 4 {
        '4'
    } else if d == 5 {
        '5'
    } else if d == 6 {
        '6'
    } else if d == 7 {
        '7'
    } else if d == 8 {
        '8'
    } else {
        '9'
    }
}

/// A number in decimal, without sign and without leading zeros.
pub open spec fn decimal(n: nat) -> Seq<char>
    decreases n,
{
    if n < 10 {
        seq![digit_char(n)]
    } else {
        decimal(n / 10).push(digit_char(n % 10))
    }
}

/// The first `count` of the values in decimal, with one space between each
/// two of them.
pub open spec fn row_text(values: Seq<u8>, count: nat) -> Seq<char>
    decreases count,
{
    if count == 0 {
        Seq::empty()
    } else if count == 1 {
        decimal(values[0] as nat)
    } else {
        row_text(values, (count - 1) as nat).push(' ') + decimal(values[count - 1] as nat)
    }
}

/// The values of scanline `row` of a raster that is `width` pixels wide.
pub open spec fn scanline(width: nat, raster: Seq<u8>, row: nat) -> Seq<u8> {
    raster.subrange(3 * width * row as int, 3 * width * (row + 1) as int)
}

/// The first `rows` scanlines as text, with one newline between each two of them.
pub open spec fn rows_text(width: nat, raster: Seq<u8>, rows: nat) -> Seq<char>
    decreases rows,
{
    if rows == 0 {
        Seq::empty()
    } else {
        let last = scanline(width, raster, (rows - 1) as nat);
        if rows == 1 {
            row_text(last, 3 * width)
        } else {
            rows_text(width, raster, (rows - 1) as nat).push('\n') + row_text(last, 3 * width)
        }
    }
}

/// The head of a plain-text image: the magic number, the two dimensions,
/// and the greatest value of a channel, each on a line of its own.
pub open spec fn header_text(width: nat, height: nat) -> Seq<char> {
    seq!['P', '3', '\n'] + decimal(width).push(' ') + decimal(height).push('\n') + seq![
        '2',
        '5',
        '5',
        '\n',
    ]
}

/// A raster as a plain-text image: the head, the scanlines, and a final newline.
pub open spec fn ppm_text(width: nat, height: nat, raster: Seq<u8>) -> Seq<char> {
    (header_text(width, height) + rows_text(width, raster, height)).push('\n')
}

fn digit_text(d: u32) -> (text: &'static str)
    requires
        d < 10,
    ensures
        text@ == seq![digit_char(d as nat)],
{
    proof {
        reveal_strlit("0");
        reveal_strlit("1");
        reveal_strlit("2");
        reveal_strlit("3");
        reveal_strlit("4");
        reveal_strlit("5");
        reveal_strlit("6");
        reveal_strlit("7");
        reveal_strlit("8");
        reveal_strlit("9");
    }
    let text = if d == 0 {
        "0"
    } else if d == 1 {
        "1"
    } else if d == 2 {
        "2"
    } else if d == 3 {
        "3"
    } else if d == 4 {
        "4"
    } else if d == 5 {
        "5"
    } else if d == 6 {
        "6"
    } else if d == 7 {
        "7"
    } else if d == 8 {
        "8"
    } else {
        "9"
    };
    assert(text@ =~= seq![digit_char(d as nat)]);
    text
}

/// Writes a number in decimal at the end of `out`.
pub fn push_decimal(out: &mut String, n: u32)
    ensures
        final(out)@ == old(out)@ + decimal(n as nat),
    decreases n,
{
    if n >= 10 {
        push_decimal(out, n / 10);
    }
    out.append(digit_text(n % 10));
    assert(out@ =~= old(out)@ + decimal(n as nat));
}

/// Writes a raster as a plain-text image. The raster holds three values for
/// each pixel, red, green and blue, scanline by scanline in the order in
/// which the scanlines are written.
pub fn render_ppm(resolution: [u32; 2], raster: &Vec<u8>) -> (text: String)
    requires
        raster@.len() == 3 * resolution[0] * resolution[1],
    ensures
        text@ == ppm_text(resolution[0] as nat, resolution[1] as nat, raster@),
{
    let image_width = resolution[0];
    let image_height = resolution[1];
    let ghost width = image_width as nat;
    let ghost height = image_height as nat;
    let mut output = String::new();
    proof {
        reveal_strlit("P3\n");
        reveal_strlit(" ");
        reveal_strlit("\n255\n");
        reveal_strlit("\n");
    }
    output.append("P3\n");
    push_decimal(&mut output, image_width);
    output.append(" ");
    push_decimal(&mut output, image_height);
    output.append("\n255\n");
    assert(output@ =~= header_text(width, height));

    let total = raster.len();
    let mut next: usize = 0;
    let mut y: u32 = 0;
    while y < image_height
        invariant
            y <= image_height,
            width == image_width,
            height == image_height,
            raster@.len() == 3 * width * height,
            raster@.len() == total,
            next == 3 * width * y,
            output@ == header_text(width, height) + rows_text(width, raster@, y as nat),
            " "@ == seq![' '],
            "\n"@ == seq!['\n'],
        decreases image_height - y,
    {
        let ghost line = scanline(width, raster@, y as nat);
        assert(3 * width * (y + 1) <= 3 * width * height) by (nonlinear_arith)
            requires
                y < height,
        ;
        assert(3 * width * (y + 1) == 3 * width * y + 3 * width) by (nonlinear_arith);
        let row_len: usize = 3 * (image_width as usize);
        if y > 0 {
            output.append("\n");
        }
        let ghost begun = output@;
        let mut k: usize = 0;
        while k < row_len
            invariant
                k <= row_len,
                row_len == 3 * width,
                next == 3 * width * y + k,
                3 * width * y + 3 * width <= raster@.len() <= usize::MAX,
                line == raster@.subrange(3 * width * y, 3 * width * y + 3 * width),
                output@ == begun + row_text(line, k as nat),
                " "@ == seq![' '],
            decreases row_len - k,
        {
            if k > 0 {
                output.append(" ");
            }
            let value = raster[next];
            assert(line[k as int] == value);
            push_decimal(&mut output, value as u32);
            assert(output@ =~= begun + row_text(line, (k + 1) as nat));
            next += 1;
            k += 1;
        }
        assert(output@ =~= header_text(width, height) + rows_text(
            width,
            raster@,
            (y + 1) as nat,
        ));
        y += 1;
    }
    output.append("\n");
    assert(output@ =~= ppm_text(width, height, raster@));
    output
}

/// Why a path of light ends.
#[derive(Clone, Copy, Debug, PartialEq, Eq, Structural)]
pub enum PathEnd {
    /// The budget of bounces is spent: the path gathers no light.
    Exhausted,
    /// A surface absorbed the ray: the path gathers no light.
    Absorbed,
    /// The ray met nothing: the path gathers the light of the background.
    Escaped,
}

/// A path of light, from the eye outwards: the attenuation of each bounce
/// in the order of the bounces, the ray with which the path ends, and why it
/// ends there.
pub struct Path {
    pub attenuations: Vec<Vec3>,
    pub last: Ray,
    pub end: PathEnd,
}

/// What a scene answers for a ray, as a mathematical function.
pub type SceneOracle = spec_fn(Ray) -> Option<HitRecord>;

/// What the material at a hit answers for a ray, as a mathematical function.
pub type ScatterOracle = spec_fn(Ray, HitRecord) -> Option<Scatter>;

/// Whether `oracle` tells what every call of `hit` returns.
pub open spec fn meets_as<H: Fn(&Ray) -> Option<HitRecord>>(hit: H, oracle: SceneOracle) -> bool {
    forall|ray: Ray, found: Option<HitRecord>| #[trigger]
        call_ensures(hit, (&ray,), found) ==> found == oracle(ray)
}

/// Whether `oracle` tells what every call of `scatter` returns.
pub open spec fn scatters_as<S: Fn(&Ray, &HitRecord) -> Option<Scatter>>(
    scatter: S,
    oracle: ScatterOracle,
) -> bool {
    forall|ray: Ray, hit_record: HitRecord, scattered: Option<Scatter>| #[trigger]
        call_ensures(scatter, (&ray, &hit_record), scattered) ==> scattered == oracle(
            ray,
            hit_record,
        )
}

/// The path of a ray with a budget of `depth` bounces: its attenuations,
/// its last ray and its end. With no budget the path is exhausted at once.
/// Else a ray that meets nothing escapes, a ray that is absorbed ends
/// there, and a ray that is scattered attenuates and goes on with one
/// bounce less.
pub open spec fn spec_trace(
    scene: SceneOracle,
    materials: ScatterOracle,
    ray: Ray,
    depth: nat,
) -> (Seq<Vec3>, Ray, PathEnd)
    decreases depth,
{
    if depth == 0 {
        (Seq::empty(), ray, PathEnd::Exhausted)
    } else {
        match scene(ray) {
            None => (Seq::empty(), ray, PathEnd::Escaped),
            Some(hit_record) => match materials(ray, hit_record) {
                None => (Seq::empty(), ray, PathEnd::Absorbed),
                Some(scattered) => {
                    let rest = spec_trace(scene, materials, scattered.ray, (depth - 1) as nat);
                    (seq![scattered.attenuation] + rest.0, rest.1, rest.2)
                },
            },
        }
    }
}

/// Follows a ray through the scene for at most `depth` bounces. `hit`
/// finds what the ray meets first, and `scatter` asks the material there for
/// the ray that goes on.
///
/// The light that the path gathers is that of its end, multiplied by the
/// attenuations from the last to the first.
pub fn trace_path<H, S>(ray: &Ray, depth: u32, hit: &H, scatter: &S) -> (path: Path) where
    H: Fn(&Ray) -> Option<HitRecord>,
    S: Fn(&Ray, &HitRecord) -> Option<Scatter>,

    requires
        forall|r: Ray| call_requires(*hit, (&r,)),
        forall|r: Ray, h: HitRecord| call_requires(*scatter, (&r, &h)),
    ensures
        path.attenuations@.len() <= depth,
        path.end == PathEnd::Exhausted ==> path.attenuations@.len() == depth,
        path.end == PathEnd::Escaped ==> call_ensures(*hit, (&path.last,), None),
        forall|scene: SceneOracle, materials: ScatterOracle|
            meets_as(*hit, scene) && scatters_as(*scatter, materials) ==> (
                path.attenuations@,
                path.last,
                path.end,
            ) == #[trigger] spec_trace(scene, materials, *ray, depth as nat),
{
    let mut attenuations: Vec<Vec3> = Vec::new();
    let mut current = *ray;
    let mut left = depth;
    let mut end = PathEnd::Exhausted;
    loop
        invariant_except_break
            left <= depth,
            attenuations@.len() == depth - left,
            end == PathEnd::Exhausted,
            forall|r: Ray| call_requires(*hit, (&r,)),
            forall|r: Ray, h: HitRecord| call_requires(*scatter, (&r, &h)),
            forall|scene: SceneOracle, materials: ScatterOracle|
                meets_as(*hit, scene) && scatters_as(*scatter, materials) ==> {
                    let rest = spec_trace(scene, materials, current, left as nat);
                    (attenuations@ + rest.0, rest.1, rest.2) == #[trigger] spec_trace(
                        scene,
                        materials,
                        *ray,
                        depth as nat,
                    )
                },
        ensures
            attenuations@.len() <= depth,
            end == PathEnd::Exhausted ==> attenuations@.len() == depth,
            end == PathEnd::Escaped ==> call_ensures(*hit, (&current,), None),
            forall|scene: SceneOracle, materials: ScatterOracle|
                meets_as(*hit, scene) && scatters_as(*scatter, materials) ==> (
                    attenuations@,
                    current,
                    end,
                ) == #[trigger] spec_trace(scene, materials, *ray, depth as nat),
        decreases left,
    {
        if left == 0 {
            assert forall|scene: SceneOracle, materials: ScatterOracle|
                meets_as(*hit, scene) && scatters_as(*scatter, materials) implies (
                attenuations@,
                current,
                end,
            ) == #[trigger] spec_trace(scene, materials, *ray, depth as nat) by {
                let rest = spec_trace(scene, materials, current, 0);
                assert(attenuations@ + rest.0 =~= attenuations@);
            }
            break ;
        }
        let found = hit(&current);
        match found {
            None => {
                end = PathEnd::Escaped;
                assert forall|scene: SceneOracle, materials: ScatterOracle|
                    meets_as(*hit, scene) && scatters_as(*scatter, materials) implies (
                    attenuations@,
                    current,
                    end,
                ) == #[trigger] spec_trace(scene, materials, *ray, depth as nat) by {
                    assert(found == scene(current));
                    let rest = spec_trace(scene, materials, current, left as nat);
                    assert(attenuations@ + rest.0 =~= attenuations@);
                }
                break ;
            },
            Some(hit_record) => {
                let scattered = scatter(&current, &hit_record);
                match scattered {
                    None => {
                        end = PathEnd::Absorbed;
                        assert forall|scene: SceneOracle, materials: ScatterOracle|
                            meets_as(*hit, scene) && scatters_as(*scatter, materials) implies (
                            attenuations@,
                            current,
                            end,
                        ) == #[trigger] spec_trace(scene, materials, *ray, depth as nat) by {
                            assert(found == scene(current));
                            assert(scattered == materials(current, hit_record));
                            let rest = spec_trace(scene, materials, current, left as nat);
                            assert(attenuations@ + rest.0 =~= attenuations@);
                        }
                        break ;
                    },
                    Some(bounce) => {
                        let ghost before = attenuations@;
                        let ghost from = current;
                        attenuations.push(bounce.attenuation);
                        current = bounce.ray;
                        left = left - 1;
                        assert forall|scene: SceneOracle, materials: ScatterOracle|
                            meets_as(*hit, scene) && scatters_as(*scatter, materials) implies ({
                            let rest = spec_trace(scene, materials, current, left as nat);
                            (attenuations@ + rest.0, rest.1, rest.2) == #[trigger] spec_trace(
                                scene,
                                materials,
                                *ray,
                                depth as nat,
                            )
                        }) by {
                            assert(found == scene(from));
                            assert(scattered == materials(from, hit_record));
                            let rest = spec_trace(scene, materials, current, left as nat);
                            let whole = spec_trace(scene, materials, from, (left + 1) as nat);
                            assert(whole.0 == seq![bounce.attenuation] + rest.0);
                            assert(attenuations@ + rest.0 =~= before + whole.0);
                        }
                    },
                }
            },
        }
    }
    Path { attenuations, last: current, end }
}

} // verus!
