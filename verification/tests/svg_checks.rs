use vectorloom_local::starvector::{
    balance_svg_tags, check_root, document_for, official_result, remove_malformed_tags, repair_svg,
    validate_svg, DeviceChoice, StarVectorRuntime, SvgError,
};
use vectorloom_local::models::ModelKind;

#[test]
fn accepts_complete_svg_and_removes_outer_text() {
    let svg = validate_svg(
        "noise <svg xmlns=\"http://www.w3.org/2000/svg\"><path d=\"M0 0\"/></svg> tail".to_owned(),
        false,
    )
    .unwrap();
    assert!(svg.starts_with("<svg"));
    assert!(svg.ends_with("</svg>"));
}

#[test]
fn rejects_incomplete_or_active_content() {
    assert!(validate_svg("not an svg".to_owned(), false).is_err());
    assert!(validate_svg("<svg><script>alert(1)</script></svg>".to_owned(), false).is_err());
}

#[test]
fn rejects_incomplete_model_svg() {
    assert!(validate_svg("<svg><path d=\"M0 0\"/>".to_owned(), false).is_err());
}

#[test]
fn strict_validation_returns_the_exact_element() {
    let out = validate_svg("  <svg><g/></svg>\n".to_owned(), false).unwrap();
    assert_eq!(out, "<svg><g/></svg>");
}

#[test]
fn each_refusal_has_its_error() {
    assert_eq!(validate_svg("no root here".to_owned(), true), Err(SvgError::NoSvgRoot));
    assert_eq!(validate_svg("<svg><g>".to_owned(), false), Err(SvgError::Incomplete));
    assert_eq!(
        validate_svg("<svg><ForeignObject/></svg>".to_owned(), false),
        Err(SvgError::ForbiddenContent)
    );
    assert_eq!(
        validate_svg("<svg><a href=\"JavaScript:x\"/></svg>".to_owned(), true),
        Err(SvgError::ForbiddenContent)
    );
    assert_eq!(
        validate_svg("<svg onLoad=\"x\"></svg>".to_owned(), false),
        Err(SvgError::ForbiddenContent)
    );
    assert_eq!(
        validate_svg("<svg><IMAGE/></svg>".to_owned(), false),
        Err(SvgError::ForbiddenContent)
    );
    assert_eq!(validate_svg("<svg><g></svg>".to_owned(), false), Err(SvgError::InvalidXml));
    assert_eq!(validate_svg("<svg".to_owned(), true), Err(SvgError::NoCompleteElement));
}

#[test]
fn error_messages_match_the_service() {
    assert_eq!(SvgError::NoSvgRoot.message(), "model output has no SVG root");
    assert_eq!(SvgError::Incomplete.message(), "model output is incomplete (missing </svg>)");
    assert_eq!(SvgError::NoCompleteElement.message(), "model output has no complete SVG element");
    assert_eq!(SvgError::ForbiddenContent.message(), "model output contains forbidden SVG content");
    assert_eq!(SvgError::InvalidXml.message(), "model output is not valid XML");
    assert_eq!(SvgError::RootNotSvg.message(), "model output root is not SVG");
}

#[test]
fn truncated_output_is_repaired_when_allowed() {
    let out = validate_svg("text <svg><g fill=\"red\"><path d=\"M0 0\"/>".to_owned(), true).unwrap();
    assert_eq!(out, "<svg><g fill=\"red\"><path d=\"M0 0\"/></g></svg>");
}

#[test]
fn repairing_malformed_xml_that_closes_its_root_keeps_the_cleaned_document() {
    // The quoted value of the first path never closes before the next element starts. The
    // repair drops that tag; the rest closes every element, so the cleaned text is kept.
    let raw = "<svg><path d=\"M0 0<path d=\"M1 1\"/></svg>".to_owned();
    assert_eq!(remove_malformed_tags("<svg><path d=\"M0 0<path d=\"M1 1\"/></svg>"), "<svg><path d=\"M1 1\"/></svg>");
    assert_eq!(validate_svg(raw.clone(), false), Err(SvgError::InvalidXml));
    assert_eq!(validate_svg(raw, true), Ok("<svg><path d=\"M1 1\"/></svg>".to_owned()));
    let single = "<svg><path d='M0 0<path d='M1 1'/></svg>".to_owned();
    assert_eq!(validate_svg(single, true), Ok("<svg><path d='M1 1'/></svg>".to_owned()));
}

#[test]
fn repair_closes_what_cleaning_leaves_open() {
    assert_eq!(repair_svg("<svg><path d=\"M0 0<g>"), Ok("<svg><g></g></svg>".to_owned()));
    assert_eq!(repair_svg("<svg><a b=\"x<c/></svg>"), Ok("<svg><c/></svg>".to_owned()));
    assert_eq!(repair_svg("<g><a b=\"x<c/>"), Err(SvgError::NoSvgRoot));
}

#[test]
fn balancing_closes_open_elements_innermost_first() {
    assert_eq!(balance_svg_tags("<svg><g><path/> trailing").unwrap(), "<svg><g><path/></g></svg>");
    assert_eq!(balance_svg_tags("<svg><g></g><!-- c --><?pi?><g id=\"a\">").unwrap(), "<svg><g></g><!-- c --><?pi?><g id=\"a\"></g></svg>");
    assert_eq!(balance_svg_tags("<svg></svg>").unwrap_err(), SvgError::NoSvgRoot);
    assert_eq!(balance_svg_tags("<g><svg>").unwrap_err(), SvgError::NoSvgRoot);
    assert_eq!(balance_svg_tags("no tags").unwrap_err(), SvgError::NoCompleteElement);
}

#[test]
fn balanced_output_leaves_nothing_open() {
    let once = balance_svg_tags("<svg><g><text>abc").unwrap();
    assert_eq!(once, "<svg><g><text></text></g></svg>");
    // Reading the repaired text again finds no element open, so there is no root left to close.
    assert_eq!(balance_svg_tags(&once).unwrap_err(), SvgError::NoSvgRoot);
}

#[test]
fn closing_tag_for_another_element_is_ignored() {
    assert_eq!(balance_svg_tags("<svg><g></a>").unwrap(), "<svg><g></a></g></svg>");
}

#[test]
fn malformed_tag_before_a_new_element_is_dropped() {
    assert_eq!(remove_malformed_tags("<svg><a b=\"x<c/></svg>"), "<svg><c/></svg>");
    assert_eq!(remove_malformed_tags("<a title='>'>ok</a>"), "<a title='>'>ok</a>");
}

#[test]
fn markup_without_quotes_is_kept() {
    let s = "<svg><g><path/></g></svg>";
    assert_eq!(remove_malformed_tags(s), s);
    assert_eq!(remove_malformed_tags("plain text"), "plain text");
}

#[test]
fn unterminated_tag_at_the_end_is_kept_once() {
    assert_eq!(remove_malformed_tags("ab<c"), "ab<c");
    assert_eq!(remove_malformed_tags("<svg>x<path"), "<svg>x<path");
    assert_eq!(remove_malformed_tags("<a b='1<c>x<d"), "<c>x<d");
}

#[test]
fn closing_tag_before_the_root_is_no_svg_root() {
    assert_eq!(validate_svg("</svg> x <svg".to_owned(), false), Err(SvgError::NoSvgRoot));
    assert_eq!(validate_svg("</svg> <svg>".to_owned(), true), Err(SvgError::NoSvgRoot));
}

#[test]
fn native_results_name_model_and_device() {
    let mut rt = StarVectorRuntime::new();
    rt.mark_loaded(ModelKind::OneB, DeviceChoice::Cpu);
    let r = rt.finish(ModelKind::OneB, "<svg></svg>".to_owned(), 12).unwrap();
    assert_eq!(r.svg, "<svg></svg>");
    assert_eq!(r.engine, "StarVector 1B · CPU/F32");
    assert_eq!(r.elapsed_ms, 12);
    assert_eq!(rt.finish(ModelKind::OneB, "<svg><g>".to_owned(), 1).unwrap_err(), SvgError::Incomplete);
    rt.mark_loaded(ModelKind::EightB, DeviceChoice::Metal);
    let r = rt.finish(ModelKind::EightB, "<svg><g>".to_owned(), 1).unwrap();
    assert_eq!(r.svg, "<svg><g></g></svg>");
    assert_eq!(r.engine, "StarVector 8B · Metal/BF16");
    let r = official_result("<svg><g>".to_owned(), 5).unwrap();
    assert_eq!(r.engine, "StarVector 8B · official Transformers CUDA");
}

#[test]
fn repair_leaves_valid_output_alone() {
    let raw = "model says: <svg viewBox=\"0 0 1 1\"><rect width=\"1\" height=\"1\"/></svg>";
    let strict = validate_svg(raw.to_owned(), false).unwrap();
    assert_eq!(validate_svg(raw.to_owned(), true).unwrap(), strict);
}

#[test]
fn documents_are_kept_or_repaired_by_what_the_parser_reports() {
    assert_eq!(document_for("<svg></svg>".to_owned(), true, false).unwrap(), "<svg></svg>");
    assert_eq!(document_for("<svg><g>".to_owned(), false, false), Err(SvgError::InvalidXml));
    assert_eq!(document_for("<svg><g>".to_owned(), false, true).unwrap(), "<svg><g></g></svg>");
    assert_eq!(check_root("<svg/>".to_owned(), Some("svg".to_owned())).unwrap(), "<svg/>");
    assert_eq!(check_root("<svg/>".to_owned(), Some("html".to_owned())), Err(SvgError::RootNotSvg));
    assert_eq!(check_root("<svg/>".to_owned(), None), Err(SvgError::InvalidXml));
}

#[test]
fn cleaning_twice_changes_nothing_more() {
    for raw in [
        "<svg><path d=\"M0 0<path d=\"M1 1\"/></svg>",
        "<a b='1<c d=\"2<e>x<f",
        "ab<c",
        "<svg><g t='x'>y</g></svg>",
    ] {
        let once = remove_malformed_tags(raw);
        assert!(once.len() <= raw.len());
        assert_eq!(remove_malformed_tags(&once), once);
    }
}

#[test]
fn repair_adds_no_active_content() {
    let raw = "<svg><g t=\"on<load=\"x\"/></svg>".to_owned();
    let out = validate_svg(raw, true);
    assert!(out.map_or(true, |s| !s.to_ascii_lowercase().contains("onload=")));
    let raw = "<svg><a href=\"java<script:x\"/><g>".to_owned();
    let out = validate_svg(raw, true);
    assert!(out.map_or(true, |s| !s.to_ascii_lowercase().contains("<script")));
    assert_eq!(
        validate_svg("<svg><g t=\"a<g/></svg>".to_owned(), true),
        Ok("<svg><g/></svg>".to_owned())
    );
}

#[test]
fn cleaning_leaves_out_whole_ranges_between_tag_starts() {
    let raw = "<svg><path d=\"M0 0<path d=\"M1 1\"/></svg>";
    let cut = raw.find("<path d=\"M1").unwrap();
    let kept = format!("{}{}", &raw[..5], &raw[cut..]);
    assert_eq!(remove_malformed_tags(raw), kept);
    let raw = "x<a b='1<c d='2<e>y";
    assert_eq!(remove_malformed_tags(raw), "x<e>y");
}
