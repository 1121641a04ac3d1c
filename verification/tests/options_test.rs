use rustyray::options::{
    RenderingOpts, PARALLEL_OFF, PARALLEL_ON, TEXTURE_BYTE_SIZE, TEXTURE_H, TEXTURE_W,
};

#[test]
fn default_rendering_opts() {
    let o = RenderingOpts::default();
    assert_eq!(o.split, 1);
    assert_eq!(o.depth, 2);
    assert!(o.enable_bp);
    assert!(o.parallel_mode);
    assert!(!o.limit_fps);
    assert!(!o.bordering_split);
}

#[test]
fn to_str_of_default() {
    let o = RenderingOpts::default();
    assert_eq!(
        o.to_str(),
        "RenderingOpts { split: 1, depth: 2, enable_bp: true, parallel_mode: true, limit_fps: false, bordering_split: false }"
    );
}

#[test]
fn to_str_matches_debug_format() {
    let values: [u8; 8] = [0, 1, 9, 10, 42, 99, 100, 255];
    for &split in values.iter() {
        for &depth in values.iter() {
            for flags in 0u8..16 {
                let o = RenderingOpts {
                    split,
                    depth,
                    enable_bp: flags & 1 != 0,
                    parallel_mode: flags & 2 != 0,
                    limit_fps: flags & 4 != 0,
                    bordering_split: flags & 8 != 0,
                };
                assert_eq!(o.to_str(), format!("{:?}", o));
            }
        }
    }
}

#[test]
fn to_str_three_digit_values() {
    let o = RenderingOpts {
        split: 205,
        depth: 107,
        enable_bp: false,
        parallel_mode: false,
        limit_fps: true,
        bordering_split: true,
    };
    assert_eq!(
        o.to_str(),
        "RenderingOpts { split: 205, depth: 107, enable_bp: false, parallel_mode: false, limit_fps: true, bordering_split: true }"
    );
}

#[test]
fn texture_constants() {
    assert_eq!(TEXTURE_W, 16);
    assert_eq!(TEXTURE_H, 16);
    assert_eq!(TEXTURE_BYTE_SIZE, (TEXTURE_W * TEXTURE_H * 3) as usize);
    assert!(!PARALLEL_OFF);
    assert!(PARALLEL_ON);
}
