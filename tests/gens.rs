use hart::gens::write_from;
use hart::{Category, ForeveRNG, Mottler, Test2D, TestAscii, WorleyGen};

#[test]
fn categories_in_order() {
    assert_eq!(Category::all(), [Category::Test, Category::Basic, Category::Project]);
}

#[test]
fn category_names_and_descriptions() {
    assert_eq!(Category::Test.name(), "test");
    assert_eq!(Category::Basic.name(), "basic");
    assert_eq!(Category::Project.name(), "project");
    assert_eq!(
        Category::Basic.description(),
        "A single, simple generator of noise, maybe with octaves or inversion applied"
    );
    assert_eq!(Category::Project.description(), "An art piece, built out of other generators etc.");
}

#[test]
fn generators_and_their_categories() {
    assert_eq!((TestAscii.category(), TestAscii.command()), (Category::Test, "ascii"));
    assert_eq!((Test2D.category(), Test2D.command()), (Category::Test, "2d"));
    assert_eq!((WorleyGen.category(), WorleyGen.command()), (Category::Basic, "basic:worley"));
    assert_eq!((Mottler.category(), Mottler.command()), (Category::Project, "mottle"));
    assert_eq!(Mottler.about(), "Blend two images together by picking pixels based on 2D noise");
}

#[test]
fn channel_seeds_prefix_the_channel() {
    assert_eq!(Test2D::channel_seed(b"ab", 2), vec![2, b'a', b'b']);
    assert_eq!(Test2D::channel_seed(&[], 0), vec![0]);
}

fn listing(bytes: &[u8]) -> String {
    bytes.iter().map(|b| format!(" {:02x}", b)).collect()
}

#[test]
fn write_from_shows_thirty_two_bytes_in_hex() {
    let mut same = ForeveRNG::with_seed(b"hex");
    let mut bytes = [0u8; 32];
    same.fill_bytes(&mut bytes);
    let out = write_from(ForeveRNG::with_seed(b"hex"), "Parent");
    let expected = format!("Some random data from Parent\n{}\n", listing(&bytes));
    assert_eq!(String::from_utf8(out).unwrap(), expected);
}

#[test]
fn report_on_empty_seed() {
    let text = String::from_utf8(TestAscii::report(&[])).unwrap();
    let lines: Vec<&str> = text.lines().collect();
    assert_eq!(lines.len(), 8);
    assert_eq!(lines[0], "Some random data from Parent");
    assert!(lines[1].starts_with(&" 00".repeat(16)));
    assert_eq!(lines[1].len(), 96);
    assert!(lines[1][48..].contains(|c: char| c != '0' && c != ' '));
    assert_eq!(lines[2], "Some random data from Child 1-1");
    assert_eq!(lines[4], "Some random data from Child 2");
    assert_eq!(lines[6], "Some random data from Child 1-2");
    assert_eq!(lines[3], lines[7]);
    assert_ne!(lines[3], lines[5]);
    assert!(text.ends_with('\n'));
}
