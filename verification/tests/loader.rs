use pathtracer::loader::statement::{find_material, keyword, lines, statement, words, Keyword};
use pathtracer::scene::Material;

fn named(name: &str) -> Material {
    let mut m = Material::default();
    m.name = name.to_string();
    m
}

fn kind(word: &str) -> Keyword {
    keyword(word.as_bytes(), 0, word.len())
}

#[test]
fn a_text_is_cut_at_its_line_feeds() {
    assert_eq!(lines(b"v 1 2 3\nf 1 2 3\n"), vec![(0, 7), (8, 15)]);
    assert_eq!(lines(b"a\n\nb"), vec![(0, 1), (2, 2), (3, 4)]);
    assert_eq!(lines(b"a\r\nb"), vec![(0, 2), (3, 4)]);
    assert_eq!(lines(b"\n"), vec![(0, 0)]);
    assert_eq!(lines(b"abc"), vec![(0, 3)]);
    assert_eq!(lines(b""), Vec::new());
}

#[test]
fn a_text_is_cut_as_the_standard_library_cuts_it() {
    let text = "# scene\nmtllib a.mtl\n\nv 0 0 0\nvn 0 0 1\r\nf 1//1 1//1 1//1";
    let expected: Vec<&str> = text.split_terminator('\n').collect();
    let found: Vec<&str> = lines(text.as_bytes()).iter().map(|&(a, b)| &text[a..b]).collect();
    assert_eq!(found, expected);
}

#[test]
fn a_line_is_cut_at_its_white_space() {
    assert_eq!(words(b"v 1.0  2.0\t3.0\r"), vec![(0, 1), (2, 5), (7, 10), (11, 14)]);
    assert_eq!(words(b"   f 1 2 3"), vec![(3, 4), (5, 6), (7, 8), (9, 10)]);
    assert_eq!(words(b""), Vec::new());
    assert_eq!(words(b" \t\r"), Vec::new());
    assert_eq!(words(b"word"), vec![(0, 4)]);
}

#[test]
fn a_line_is_cut_as_the_standard_library_cuts_it() {
    for line in ["v 1.0 2.0 3.0", "  usemtl   red  ", "\tKd 1 0.5 0\r", "f 1/2/3 4/5/6 7/8/9", ""] {
        let expected: Vec<&str> = line.split_whitespace().collect();
        let found: Vec<&str> = words(line.as_bytes()).iter().map(|&(a, b)| &line[a..b]).collect();
        assert_eq!(found, expected);
    }
}

#[test]
fn the_first_word_names_the_statement() {
    assert_eq!(kind("v"), Keyword::Position);
    assert_eq!(kind("vt"), Keyword::TexCoord);
    assert_eq!(kind("vn"), Keyword::Normal);
    assert_eq!(kind("f"), Keyword::Face);
    assert_eq!(kind("usemtl"), Keyword::UseMaterial);
    assert_eq!(kind("mtllib"), Keyword::MaterialLib);
    assert_eq!(kind("newmtl"), Keyword::NewMaterial);
    assert_eq!(kind("Kd"), Keyword::BaseColor);
    assert_eq!(kind("Ke"), Keyword::Emission);
    assert_eq!(kind("Ni"), Keyword::Ior);
    assert_eq!(kind("Pr"), Keyword::Roughness);
    assert_eq!(kind("Pm"), Keyword::Metallic);
    assert_eq!(kind("Tf"), Keyword::Transmission);
    assert_eq!(kind("#"), Keyword::Comment);
    assert_eq!(kind("#v"), Keyword::Comment);
    assert_eq!(kind(""), Keyword::Blank);
    for other in ["V", "vx", "vtt", "g", "o", "s", "usemtx", "usemtll", "kd", "Ks", "Ns", "d", "illum"] {
        assert_eq!(kind(other), Keyword::Other, "{other}");
    }
    assert_eq!(keyword(b"xx vn yy", 3, 5), Keyword::Normal);
}

#[test]
fn a_line_is_taken_apart() {
    let line = b"  v 1.5 -2 3e2";
    let parsed = statement(line);
    assert_eq!(parsed.keyword, Keyword::Position);
    assert_eq!(parsed.args, vec![(4, 7), (8, 10), (11, 14)]);
    let comment = statement(b"# v 1 2 3");
    assert_eq!(comment.keyword, Keyword::Comment);
    assert_eq!(comment.args.len(), 4);
    let blank = statement(b"   ");
    assert_eq!(blank.keyword, Keyword::Blank);
    assert!(blank.args.is_empty());
    let bare = statement(b"usemtl");
    assert_eq!(bare.keyword, Keyword::UseMaterial);
    assert!(bare.args.is_empty());
    let unknown = statement(b"g group");
    assert_eq!(unknown.keyword, Keyword::Other);
    assert_eq!(unknown.args, vec![(2, 7)]);
}

#[test]
fn a_material_is_found_by_its_name() {
    let materials = vec![named("red"), named("green"), named("red"), named("")];
    assert_eq!(find_material(&materials, &"red".to_string()), Some(0));
    assert_eq!(find_material(&materials, &"green".to_string()), Some(1));
    assert_eq!(find_material(&materials, &"".to_string()), Some(3));
    assert_eq!(find_material(&materials, &"blue".to_string()), None);
    assert_eq!(find_material(&materials, &"Red".to_string()), None);
    assert_eq!(find_material(&Vec::new(), &"red".to_string()), None);
}
