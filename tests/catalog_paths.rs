use std::io::Write;
use vcfviewer::catalog::{build_catalog, CatalogError, FileTimes, ScannedDir, ScannedFile, Timestamp};
use vcfviewer::data::{decode_data, DataFormat};
use vcfviewer::paths::{decode_spaces_in, is_within, resolve_relative, resolve_root, PathError};
use vcfviewer::request::{RequestError, UpdateRequest};
use vcfviewer::listfile::ListKind;

fn times(m: i64, a: i64) -> Option<FileTimes> {
    Some(FileTimes {
        modified: Timestamp { secs: m, nanos: 0 },
        accessed: Timestamp { secs: a, nanos: 5 },
    })
}

fn file(name: &str, t: Option<FileTimes>) -> ScannedFile {
    ScannedFile { name: Some(name.as_bytes().to_vec()), times: t }
}

#[test]
fn catalog_keeps_both_stems_of_vcf_and_vcf_gz() {
    let dirs = vec![ScannedDir {
        name: Some(b"cohort1".to_vec()),
        files: Some(vec![
            file("sampleA.vcf", times(10, 11)),
            file("sampleA.vcf.gz", times(20, 21)),
            file("notes.txt", times(30, 31)),
        ]),
    }];
    let catalog = build_catalog(&dirs).unwrap();
    assert_eq!(catalog.len(), 1);
    assert_eq!(catalog[0].name, b"cohort1".to_vec());
    assert_eq!(catalog[0].files.len(), 2);
    assert_eq!(catalog[0].files[0].name, b"sampleA".to_vec());
    assert_eq!(catalog[0].files[1].name, b"sampleA".to_vec());
    assert_eq!(catalog[0].files[0].modified, Timestamp { secs: 10, nanos: 0 });
    assert_eq!(catalog[0].files[1].accessed, Timestamp { secs: 21, nanos: 5 });
}

#[test]
fn catalog_requires_the_dot_before_vcf() {
    let dirs = vec![ScannedDir {
        name: Some(b"d".to_vec()),
        files: Some(vec![file("samplevcf", times(1, 1)), file("a.b.vcf", times(2, 2))]),
    }];
    let catalog = build_catalog(&dirs).unwrap();
    assert_eq!(catalog[0].files.len(), 1);
    assert_eq!(catalog[0].files[0].name, b"a".to_vec());
}

#[test]
fn catalog_keeps_empty_datasets_and_skips_unlisted_ones() {
    let dirs = vec![
        ScannedDir { name: Some(b"empty".to_vec()), files: Some(vec![]) },
        ScannedDir { name: Some(b"locked".to_vec()), files: None },
        ScannedDir { name: None, files: Some(vec![file("x.vcf", times(1, 1))]) },
        ScannedDir {
            name: Some(b"second".to_vec()),
            files: Some(vec![ScannedFile { name: None, times: None }, file("y.vcf", times(3, 4))]),
        },
    ];
    let catalog = build_catalog(&dirs).unwrap();
    assert_eq!(catalog.len(), 2);
    assert_eq!(catalog[0].name, b"empty".to_vec());
    assert!(catalog[0].files.is_empty());
    assert_eq!(catalog[1].name, b"second".to_vec());
    assert_eq!(catalog[1].files.len(), 1);
}

#[test]
fn catalog_fails_on_unreadable_metadata() {
    let dirs = vec![
        ScannedDir { name: Some(b"a".to_vec()), files: Some(vec![file("ok.vcf", times(1, 1))]) },
        ScannedDir {
            name: Some(b"b".to_vec()),
            files: Some(vec![file("notes.txt", None), file("bad.vcf.gz", None), file("worse.vcf", None)]),
        },
    ];
    match build_catalog(&dirs) {
        Err(CatalogError::Metadata { file }) => assert_eq!(file, b"bad.vcf.gz".to_vec()),
        Ok(_) => panic!("metadata failure not reported"),
    }
}

#[test]
fn spaces_are_decoded() {
    assert_eq!(decode_spaces_in(b"my%20data%20set"), b"my data set".to_vec());
    assert_eq!(decode_spaces_in(b"%2%20"), b"%2 ".to_vec());
    assert_eq!(decode_spaces_in(b"%21"), b"%21".to_vec());
}

#[test]
fn paths_must_stay_inside() {
    assert!(is_within(b"cohort1/sampleA"));
    assert!(is_within(b"a/../b"));
    assert!(is_within(b"./a//b/"));
    assert!(is_within(b""));
    assert!(!is_within(b"../etc/passwd"));
    assert!(!is_within(b"a/../../b"));
    assert!(!is_within(b"/etc/passwd"));
    assert!(is_within(b"a/..."));
}

#[test]
fn resolve_relative_decodes_then_checks() {
    assert_eq!(resolve_relative(b"my%20set/s1"), Ok(b"my set/s1".to_vec()));
    assert_eq!(resolve_relative(b"..%20/x"), Ok(b".. /x".to_vec()));
    assert_eq!(resolve_relative(b"../x"), Err(PathError::Escapes));
}

#[test]
fn resolve_root_joins_dataset_and_file() {
    assert_eq!(resolve_root(b"cohort%201", b"sample%20A"), Ok(b"cohort 1/sample A".to_vec()));
    assert_eq!(resolve_root(b"..", b"secret"), Err(PathError::Escapes));
    assert_eq!(resolve_root(b"a", b".."), Ok(b"a/..".to_vec()));
}

#[test]
fn update_request_is_checked() {
    let ok = UpdateRequest {
        file: String::from("cohort%201/sampleA"),
        target_list: String::from("blacklist"),
        signature: String::from("sig1\nsig2"),
        active: true,
    };
    let u = ok.check().unwrap();
    assert_eq!(u.root, b"cohort 1/sampleA".to_vec());
    assert_eq!(u.kind, ListKind::Blacklist);
    assert_eq!(u.batch, b"sig1\nsig2".to_vec());
    assert!(u.active);

    let bad_list = UpdateRequest {
        file: String::from("cohort1/sampleA"),
        target_list: String::from("redlist"),
        signature: String::from("x"),
        active: false,
    };
    assert_eq!(bad_list.check().err(), Some(RequestError::UnknownList));

    let bad_path = UpdateRequest {
        file: String::from("../../etc/passwd"),
        target_list: String::from("redlist"),
        signature: String::from("x"),
        active: false,
    };
    assert_eq!(bad_path.check().err(), Some(RequestError::Escapes));
}

#[test]
fn plain_data_is_returned_as_is() {
    assert_eq!(decode_data(b"##fileformat=VCF", DataFormat::Plain), Some(b"##fileformat=VCF".to_vec()));
    assert_eq!(DataFormat::Plain.extension(), "vcf");
    assert_eq!(DataFormat::Gzip.extension(), "vcf.gz");
}

#[test]
fn gzip_data_is_decompressed() {
    let mut enc = flate2::write::GzEncoder::new(Vec::new(), flate2::Compression::default());
    enc.write_all(b"#CHROM\tPOS\nchr1\t100\n").unwrap();
    let packed = enc.finish().unwrap();
    assert_ne!(packed, b"#CHROM\tPOS\nchr1\t100\n".to_vec());
    assert_eq!(decode_data(&packed, DataFormat::Gzip), Some(b"#CHROM\tPOS\nchr1\t100\n".to_vec()));
}

#[test]
fn invalid_gzip_data_gives_none() {
    assert_eq!(decode_data(b"not gzip at all", DataFormat::Gzip), None);
}
