use craftmc::paths::PathError;
use craftmc::region::{
    chunk_info, chunk_slots, clear_chunk_offset, count_chunks, dimension_region_dirs, header_chunk_count,
    is_region_file, region_dir_of,
    read_chunks, region_dir_candidates, region_file_label, region_file_path, sort_region_files, RegionError,
    RegionFileInfo, RegionLayout,
};

fn tables() -> (Vec<u8>, Vec<u8>) {
    let mut loc = vec![0u8; 4096];
    let mut ts = vec![0u8; 4096];
    // chunk (0,0): offset 2 sectors, length 1
    loc[0..4].copy_from_slice(&[0, 0, 2, 1]);
    ts[0..4].copy_from_slice(&[0, 0, 1, 0]);
    // chunk (5,1) = index 37: offset 0x010203, length 3
    loc[148..152].copy_from_slice(&[1, 2, 3, 3]);
    ts[148..152].copy_from_slice(&[0x12, 0x34, 0x56, 0x78]);
    // index 40: offset set but length 0: absent
    loc[160..164].copy_from_slice(&[0, 0, 9, 0]);
    // index 41: length set but offset 0: absent
    loc[164..168].copy_from_slice(&[0, 0, 0, 4]);
    (loc, ts)
}

#[test]
fn counts_present_chunks() {
    let (loc, _) = tables();
    assert_eq!(count_chunks(&loc), 2);
    assert_eq!(count_chunks(&vec![0u8; 4096]), 0);
}

#[test]
fn reads_chunk_slots_and_infos() {
    let (loc, ts) = tables();
    let slots = chunk_slots(&loc, &ts);
    assert_eq!(slots.len(), 2);
    assert_eq!((slots[0].x, slots[0].z, slots[0].offset_sectors, slots[0].length_sectors), (0, 0, 2, 1));
    assert_eq!(slots[0].timestamp, 256);
    assert_eq!(slots[0].byte_offset, 8192);
    assert_eq!((slots[1].index, slots[1].x, slots[1].z), (37, 5, 1));
    assert_eq!(slots[1].offset_sectors, 0x010203);
    assert_eq!(slots[1].timestamp, 0x12345678);
    assert_eq!(slots[1].byte_offset, 0x010203u64 * 4096);
    let c = chunk_info(&slots[1], Some([0, 0, 1, 0, 2]));
    assert_eq!(c.data_length, 256);
    assert_eq!(c.compression, 2);
    let headers = vec![Some([0, 0, 0, 9, 2]), None];
    let all = read_chunks(&loc, &ts, &headers);
    assert_eq!(all.len(), 2);
    assert_eq!(all[0].data_length, 9);
    assert_eq!(all[0].compression, 2);
    assert_eq!((all[1].x, all[1].z, all[1].length_sectors, all[1].data_length, all[1].compression), (5, 1, 3, 0, 0));
}

#[test]
fn clearing_a_chunk_targets_its_location_entry() {
    assert_eq!(clear_chunk_offset(0, 0), Ok(0));
    assert_eq!(clear_chunk_offset(5, 1), Ok(148));
    assert_eq!(clear_chunk_offset(31, 31), Ok(4092));
    assert_eq!(clear_chunk_offset(32, 0), Err(RegionError::ChunkOutOfRange));
    assert_eq!(clear_chunk_offset(0, 40), Err(RegionError::ChunkOutOfRange));
    assert_eq!(RegionError::ChunkOutOfRange.message(), "chunk x/z must be 0..32");
}

#[test]
fn region_dirs_prefer_the_new_layout() {
    let c = region_dir_candidates("/srv");
    assert_eq!(c[0], "/srv/world/dimensions/minecraft/overworld/region");
    assert_eq!(c[5], "/srv/world_the_end/DIM1/region");
    let layout = RegionLayout {
        new_overworld: true,
        old_overworld: true,
        new_nether: false,
        old_nether: true,
        new_end: false,
        old_end: false,
    };
    let d = dimension_region_dirs("/srv", &layout);
    assert_eq!(
        d,
        vec![
            ("overworld".to_string(), "/srv/world/dimensions/minecraft/overworld/region".to_string()),
            ("the_nether".to_string(), "/srv/world_nether/DIM-1/region".to_string()),
        ]
    );
    assert_eq!(region_file_path(&d, "the_nether", "r.0.0.mca").unwrap(), "/srv/world_nether/DIM-1/region/r.0.0.mca");
    assert_eq!(region_file_path(&d, "overworld", "../../x/r.1.1.mca").unwrap(), "/srv/world/dimensions/minecraft/overworld/region/r.1.1.mca");
    assert_eq!(region_file_path(&d, "the_end", "r.0.0.mca"), Err(PathError::UnknownDimension));
    assert_eq!(region_file_path(&d, "overworld", "level.dat"), Err(PathError::NotMca));
    assert_eq!(region_file_path(&d, "overworld", ".."), Err(PathError::BadName));
}

#[test]
fn region_file_listing() {
    assert!(is_region_file("r.0.0.mca", true));
    assert!(!is_region_file("r.0.0.mca", false));
    assert!(!is_region_file("r.0.0.mcr", true));
    assert_eq!(region_file_label("overworld", "r.0.0.mca"), "overworld/r.0.0.mca");
    let v = vec![
        RegionFileInfo { path: "overworld/r.1.0.mca".into(), size: 1, chunk_count: 0 },
        RegionFileInfo { path: "overworld/r.-1.0.mca".into(), size: 1, chunk_count: 0 },
        RegionFileInfo { path: "overworld/r.0.0.mca".into(), size: 1, chunk_count: 0 },
    ];
    let paths: Vec<String> = sort_region_files(v).into_iter().map(|f| f.path).collect();
    assert_eq!(paths, vec!["overworld/r.-1.0.mca", "overworld/r.0.0.mca", "overworld/r.1.0.mca"]);
}

#[test]
fn a_cleared_chunk_is_no_longer_listed() {
    let (loc, ts) = tables();
    let off = clear_chunk_offset(5, 1).unwrap() as usize;
    let mut cleared = loc.clone();
    cleared[off..off + 4].copy_from_slice(&[0, 0, 0, 0]);
    let before = chunk_slots(&loc, &ts);
    let after = chunk_slots(&cleared, &ts);
    assert_eq!(before.len(), 2);
    assert_eq!(after.len(), 1);
    assert_eq!((after[0].x, after[0].z, after[0].offset_sectors), (0, 0, 2));
    assert_eq!(count_chunks(&cleared), 1);
}

#[test]
fn short_headers_count_no_chunks() {
    let (loc, _) = tables();
    assert_eq!(header_chunk_count(&loc[..4095]), 0);
    assert_eq!(header_chunk_count(&[]), 0);
    assert_eq!(header_chunk_count(&loc), 2);
    let mut longer = loc.clone();
    longer.extend_from_slice(&[7u8; 100]);
    assert_eq!(header_chunk_count(&longer), 2);
}

#[test]
fn region_dir_of_a_dimension() {
    let d = vec![("overworld".to_string(), "/srv/world/region".to_string())];
    assert_eq!(region_dir_of(&d, "overworld").unwrap(), "/srv/world/region");
    assert_eq!(region_dir_of(&d, "the_end"), Err(PathError::UnknownDimension));
}
