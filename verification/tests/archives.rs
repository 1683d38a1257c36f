use pathsmith_core::zipped::{build_crop_zip, build_zip};
use std::io::Read;

fn files_of(bytes: Vec<u8>) -> Vec<(String, Vec<u8>)> {
    let mut archive = zip::ZipArchive::new(std::io::Cursor::new(bytes)).unwrap();
    let mut out = Vec::new();
    for i in 0..archive.len() {
        let mut f = archive.by_index(i).unwrap();
        let mut data = Vec::new();
        f.read_to_end(&mut data).unwrap();
        out.push((f.name().unwrap().to_string(), data));
    }
    out
}

#[test]
fn svg_archive_holds_each_success_in_order() {
    let results = vec![
        ("raw".to_string(), Ok("<svg>a</svg>".to_string())),
        ("flat".to_string(), Err("failed".to_string())),
        ("hybrid".to_string(), Ok("<svg>b</svg>".to_string())),
    ];
    let files = files_of(build_zip(&results).unwrap());
    assert_eq!(
        files,
        vec![
            ("raw.svg".to_string(), b"<svg>a</svg>".to_vec()),
            ("hybrid.svg".to_string(), b"<svg>b</svg>".to_vec()),
        ]
    );
}

#[test]
fn crop_archive_holds_each_png_and_refuses_repeated_names() {
    let results = vec![
        ("crop-1".to_string(), Ok(vec![1u8, 2, 3])),
        ("crop-2".to_string(), Err("box has zero area within the image".to_string())),
        ("logo".to_string(), Ok(vec![9u8])),
    ];
    let files = files_of(build_crop_zip(&results).unwrap());
    assert_eq!(files, vec![("crop-1.png".to_string(), vec![1, 2, 3]), ("logo.png".to_string(), vec![9])]);
    let twice = vec![("a".to_string(), Ok(vec![1u8])), ("a".to_string(), Ok(vec![2u8]))];
    assert!(build_crop_zip(&twice).is_err());
    assert!(files_of(build_zip(&Vec::new()).unwrap()).is_empty());
}

#[test]
fn distinct_names_always_give_an_archive() {
    let results: Vec<(String, Result<String, String>)> =
        (0..50).map(|i| (format!("p{i}"), Ok(format!("<svg>{i}</svg>")))).collect();
    let files = files_of(build_zip(&results).unwrap());
    assert_eq!(files.len(), 50);
    assert_eq!(files[49], ("p49.svg".to_string(), b"<svg>49</svg>".to_vec()));
}
