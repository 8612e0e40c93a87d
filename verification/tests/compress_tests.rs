use std::io::Cursor;

use lopdf::{Dictionary, Object, Stream};
use pbn_to_pdf::cli::args::boards_in_range;
use pbn_to_pdf::model::board::Board;
use pbn_to_pdf::render::compress::{
    compress_pdf, missing_names, shorter_spelling, missing_resources, repair_form_xobject_resources,
    round_form_path_coordinates, ReferencedNames,
};
use pbn_to_pdf::render::text_metrics::FontMetrics;

fn name(bytes: &[u8]) -> Object {
    Object::Name(bytes.to_vec())
}

fn unchanged(token: &[u8]) -> Vec<u8> {
    token.to_vec()
}

fn document_with_form(content: &[u8], resources: Option<Object>) -> lopdf::Document {
    let mut doc = lopdf::Document::with_version("1.5");
    let mut form_dict = Dictionary::new();
    form_dict.set("Type", name(b"XObject"));
    form_dict.set("Subtype", name(b"Form"));
    form_dict.set(
        "BBox",
        Object::Array(vec![0.into(), 0.into(), 100.into(), 100.into()]),
    );
    if let Some(resources) = resources {
        form_dict.set("Resources", resources);
    }
    let form_id = doc.add_object(Object::Stream(Stream::new(form_dict, content.to_vec())));
    let pages_id = doc.new_object_id();
    let content_id = doc.add_object(Object::Stream(Stream::new(
        Dictionary::new(),
        b"/F1 Do".to_vec(),
    )));
    let mut xobjects = Dictionary::new();
    xobjects.set("F1", Object::Reference(form_id));
    let mut page_resources = Dictionary::new();
    page_resources.set("XObject", Object::Dictionary(xobjects));
    let mut page = Dictionary::new();
    page.set("Type", name(b"Page"));
    page.set("Parent", Object::Reference(pages_id));
    page.set("Contents", Object::Reference(content_id));
    page.set("Resources", Object::Dictionary(page_resources));
    page.set(
        "MediaBox",
        Object::Array(vec![0.into(), 0.into(), 612.into(), 792.into()]),
    );
    let page_id = doc.add_object(Object::Dictionary(page));
    let mut pages = Dictionary::new();
    pages.set("Type", name(b"Pages"));
    pages.set("Kids", Object::Array(vec![Object::Reference(page_id)]));
    pages.set("Count", 1);
    doc.objects.insert(pages_id, Object::Dictionary(pages));
    let mut catalog = Dictionary::new();
    catalog.set("Type", name(b"Catalog"));
    catalog.set("Pages", Object::Reference(pages_id));
    let catalog_id = doc.add_object(Object::Dictionary(catalog));
    doc.trailer.set("Root", Object::Reference(catalog_id));
    doc
}

fn save_to_bytes(doc: &mut lopdf::Document) -> Vec<u8> {
    let mut bytes = Cursor::new(Vec::new());
    doc.save_to(&mut bytes).unwrap();
    bytes.into_inner()
}

fn form_resources(doc: &lopdf::Document) -> &Dictionary {
    let stream = doc
        .objects
        .values()
        .find_map(|o| match o {
            Object::Stream(s)
                if s.dict.get(b"Subtype").ok().and_then(|o| o.as_name().ok())
                    == Some(b"Form".as_slice())
                    && !s.content.is_empty() =>
            {
                Some(s)
            }
            _ => None,
        })
        .expect("form xobject present");
    stream.dict.get(b"Resources").unwrap().as_dict().unwrap()
}

#[test]
fn defines_missing_resources_referenced_by_form_content() {
    let content = b"q\n/cs0 cs\n1 1 1 rg\n/gs0 gs\n/xo0 Do\nQ\n";
    // ColorSpace as a bare name mirrors printpdf's malformed output.
    let mut resources = Dictionary::new();
    resources.set("ColorSpace", name(b"DeviceRGB"));
    let mut doc = document_with_form(content, Some(Object::Dictionary(resources)));

    let repaired = compress_pdf(&save_to_bytes(&mut doc), unchanged).unwrap();
    let repaired_doc = lopdf::Document::load_mem(&repaired).unwrap();
    let resources = form_resources(&repaired_doc);

    let color_spaces = resources.get(b"ColorSpace").unwrap().as_dict().unwrap();
    assert_eq!(
        color_spaces.get(b"cs0").unwrap().as_name().unwrap(),
        b"DeviceRGB"
    );
    let ext_g_states = resources.get(b"ExtGState").unwrap().as_dict().unwrap();
    assert!(ext_g_states.get(b"gs0").unwrap().as_dict().is_ok());
    let xobjects = resources.get(b"XObject").unwrap().as_dict().unwrap();
    let placeholder = xobjects.get(b"xo0").unwrap().as_reference().unwrap();
    assert!(matches!(
        repaired_doc.objects.get(&placeholder),
        Some(Object::Stream(_))
    ));
}

#[test]
fn preserves_already_defined_resources() {
    let content = b"q\n/cs0 cs\n0 0 0 rg\nQ\n";
    let mut color_spaces = Dictionary::new();
    color_spaces.set("cs0", name(b"Pattern"));
    let mut resources = Dictionary::new();
    resources.set("ColorSpace", Object::Dictionary(color_spaces));
    let mut doc = document_with_form(content, Some(Object::Dictionary(resources)));

    let repaired = compress_pdf(&save_to_bytes(&mut doc), unchanged).unwrap();
    let repaired_doc = lopdf::Document::load_mem(&repaired).unwrap();
    let resources = form_resources(&repaired_doc);

    let color_spaces = resources.get(b"ColorSpace").unwrap().as_dict().unwrap();
    assert_eq!(
        color_spaces.get(b"cs0").unwrap().as_name().unwrap(),
        b"Pattern"
    );
}

#[test]
fn creates_resources_dictionary_when_absent() {
    let content = b"q\n/cs0 CS\n0 0 0 RG\nQ\n";
    let mut doc = document_with_form(content, None);

    let repaired = compress_pdf(&save_to_bytes(&mut doc), unchanged).unwrap();
    let repaired_doc = lopdf::Document::load_mem(&repaired).unwrap();
    let resources = form_resources(&repaired_doc);

    let color_spaces = resources.get(b"ColorSpace").unwrap().as_dict().unwrap();
    assert_eq!(
        color_spaces.get(b"cs0").unwrap().as_name().unwrap(),
        b"DeviceRGB"
    );
}

#[test]
fn compress_pdf_refuses_bytes_that_are_no_pdf() {
    let err = compress_pdf(b"not a pdf at all", unchanged).unwrap_err();
    assert!(err.starts_with("Failed to parse PDF for compression: "));
}

#[test]
fn compress_pdf_output_loads_again() {
    let mut doc = document_with_form(b"q\nQ\n", None);
    let out = compress_pdf(&save_to_bytes(&mut doc), unchanged).unwrap();
    assert!(lopdf::Document::load_mem(&out).is_ok());
}

#[test]
fn repair_adds_one_empty_form_only_for_drawn_xobjects() {
    let mut doc = document_with_form(b"/cs0 cs\n", None);
    assert_eq!(repair_form_xobject_resources(&mut doc), None);
    let mut doc = document_with_form(b"/a Do /b Do\n", None);
    let before = doc.max_id;
    let added = repair_form_xobject_resources(&mut doc).unwrap();
    assert_eq!(added, (before + 1, 0));
    let resources = form_resources(&doc).clone();
    let xobjects = resources.get(b"XObject").unwrap().as_dict().unwrap();
    assert_eq!(xobjects.get(b"a").unwrap().as_reference().unwrap(), added);
    assert_eq!(xobjects.get(b"b").unwrap().as_reference().unwrap(), added);
    match doc.objects.get(&added) {
        Some(Object::Stream(s)) => {
            assert!(s.content.is_empty());
            assert_eq!(s.dict.get(b"Subtype").unwrap().as_name().unwrap(), b"Form");
        }
        _ => panic!("the empty form is a stream"),
    }
}

#[test]
fn repair_follows_a_reference_to_shared_resources() {
    let mut doc = document_with_form(b"/gs7 gs\n", None);
    let shared = doc.add_object(Object::Dictionary(Dictionary::new()));
    for object in doc.objects.values_mut() {
        if let Object::Stream(s) = object {
            if s.dict.get(b"Subtype").is_ok() {
                s.dict.set("Resources", Object::Reference(shared));
            }
        }
    }
    repair_form_xobject_resources(&mut doc);
    let dict = doc.objects.get(&shared).unwrap().as_dict().unwrap();
    let states = dict.get(b"ExtGState").unwrap().as_dict().unwrap();
    let state = states.get(b"gs7").unwrap().as_dict().unwrap();
    assert_eq!(state.get(b"Type").unwrap().as_name().unwrap(), b"ExtGState");
}

#[test]
fn repair_leaves_a_form_whose_resources_refer_to_no_dictionary() {
    let mut doc = document_with_form(b"/cs1 cs\n", None);
    let target = doc.add_object(Object::Integer(3));
    for object in doc.objects.values_mut() {
        if let Object::Stream(s) = object {
            if s.dict.get(b"Subtype").is_ok() {
                s.dict.set("Resources", Object::Reference(target));
            }
        }
    }
    repair_form_xobject_resources(&mut doc);
    assert!(matches!(doc.objects.get(&target), Some(Object::Integer(3))));
}

#[test]
fn rounding_shortens_form_content_only() {
    let mut doc = document_with_form(b"1.23456 2.5 m\n", None);
    let drop_fraction = |t: &[u8]| -> Vec<u8> {
        t.iter().take_while(|b| **b != b'.').copied().collect()
    };
    round_form_path_coordinates(&mut doc, &drop_fraction);
    let forms: Vec<&Stream> = doc
        .objects
        .values()
        .filter_map(|o| match o {
            Object::Stream(s) if s.dict.get(b"Subtype").is_ok() => Some(s),
            _ => None,
        })
        .collect();
    assert_eq!(forms.len(), 1);
    assert_eq!(forms[0].content, b"1 2 m\n".to_vec());
    let page_content = doc
        .objects
        .values()
        .find_map(|o| match o {
            Object::Stream(s) if s.dict.get(b"Subtype").is_err() => Some(s),
            _ => None,
        })
        .unwrap();
    assert_eq!(page_content.content, b"/F1 Do".to_vec());
}

#[test]
fn missing_names_are_sorted_and_once() {
    let referenced = vec![b"zz".to_vec(), b"a".to_vec(), b"m".to_vec(), b"a".to_vec()];
    let present = vec![b"m".to_vec()];
    assert_eq!(
        missing_names(&referenced, &present),
        vec![b"a".to_vec(), b"zz".to_vec()]
    );
}

#[test]
fn missing_resources_by_category() {
    let referenced = ReferencedNames {
        color_spaces: vec![b"cs1".to_vec(), b"cs0".to_vec()],
        ext_g_states: vec![b"gs0".to_vec()],
        xobjects: vec![b"x".to_vec()],
    };
    let present = ReferencedNames {
        color_spaces: vec![b"cs1".to_vec()],
        ext_g_states: vec![],
        xobjects: vec![b"x".to_vec()],
    };
    let missing = missing_resources(&referenced, &present);
    assert_eq!(missing.color_spaces, vec![b"cs0".to_vec()]);
    assert_eq!(missing.ext_g_states, vec![b"gs0".to_vec()]);
    assert!(missing.xobjects.is_empty());
}

fn board_numbered(n: Option<u32>) -> Board {
    let mut b = Board::new();
    b.number = n;
    b
}

#[test]
fn boards_in_range_keeps_listed_numbers_in_order() {
    let boards = vec![
        board_numbered(Some(1)),
        board_numbered(Some(2)),
        board_numbered(None),
        board_numbered(Some(3)),
        board_numbered(Some(1)),
    ];
    let kept = boards_in_range(boards, &vec![3, 1]);
    let numbers: Vec<Option<u32>> = kept.iter().map(|b| b.number).collect();
    assert_eq!(numbers, vec![Some(1), Some(3), Some(1)]);
}

#[test]
fn boards_in_range_with_nothing_listed_keeps_nothing() {
    let kept = boards_in_range(vec![board_numbered(Some(1))], &vec![]);
    assert!(kept.is_empty());
}

#[test]
fn font_metrics_hold_their_units() {
    let m = FontMetrics {
        units_per_em: 1000,
        ascender: 683,
        descender: -217,
        line_gap: 0,
        cap_height: 662,
    };
    let c = m.clone();
    assert_eq!(c.units_per_em, 1000);
    assert_eq!(c.descender, -217);
    assert_eq!(c.cap_height, 662);
}

#[test]
fn shorter_spelling_tidies_fixed_point_text() {
    assert_eq!(shorter_spelling(b"1.23456", b"1.23"), b"1.23".to_vec());
    assert_eq!(shorter_spelling(b"7.0001", b"7.00"), b"7".to_vec());
    assert_eq!(shorter_spelling(b"-0.001", b"-0.00"), b"0".to_vec());
    assert_eq!(shorter_spelling(b"2", b"2.00"), b"2".to_vec());
    assert_eq!(shorter_spelling(b"4.16", b"4.16"), b"4.16".to_vec());
    assert_eq!(shorter_spelling(b"10.004", b"10.00"), b"10".to_vec());
    assert_eq!(shorter_spelling(b"120", b"120"), b"120".to_vec());
}
