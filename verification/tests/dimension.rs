use html_ui::dimension::{float_literal, parse_val, Dimension, Number};
use html_ui::error::HtmlUiError;

fn chars(s: &str) -> Vec<char> {
	s.chars().collect()
}

fn value(number: &Number) -> f32 {
	number.as_str().parse().unwrap()
}

fn error(s: &str) -> String {
	match parse_val(&chars(s)) {
		Err(HtmlUiError::ParseError(message)) => message,
		other => panic!("expected a parse error, got {:?}", other),
	}
}

#[test]
fn pixels_with_suffix() {
	match parse_val(&chars("12.25px")) {
		Ok(Dimension::Pixels(number)) => assert_eq!(value(&number), 12.25),
		other => panic!("expected pixels, got {:?}", other),
	}
}

#[test]
fn percent() {
	match parse_val(&chars("50%")) {
		Ok(Dimension::Percent(number)) => assert_eq!(value(&number), 50.0),
		other => panic!("expected percent, got {:?}", other),
	}
}

#[test]
fn auto() {
	assert_eq!(parse_val(&chars("auto")), Ok(Dimension::Auto));
}

#[test]
fn bare_number_is_pixels() {
	match parse_val(&chars("7")) {
		Ok(Dimension::Pixels(number)) => assert_eq!(value(&number), 7.0),
		other => panic!("expected pixels, got {:?}", other),
	}
}

#[test]
fn word_is_no_dimension() {
	assert!(parse_val(&chars("abc")).is_err());
	assert_eq!(error("abc"), "invalid gap tag `abc`: invalid float literal");
}

#[test]
fn viewport_units() {
	match parse_val(&chars("1.5vmax")) {
		Ok(Dimension::ViewportMax(number)) => assert_eq!(value(&number), 1.5),
		other => panic!("expected vmax, got {:?}", other),
	}
	match parse_val(&chars("2vmin")) {
		Ok(Dimension::ViewportMin(number)) => assert_eq!(value(&number), 2.0),
		other => panic!("expected vmin, got {:?}", other),
	}
	match parse_val(&chars("-3e1vw")) {
		Ok(Dimension::ViewportWidth(number)) => assert_eq!(value(&number), -30.0),
		other => panic!("expected vw, got {:?}", other),
	}
	match parse_val(&chars(".5vh")) {
		Ok(Dimension::ViewportHeight(number)) => assert_eq!(value(&number), 0.5),
		other => panic!("expected vh, got {:?}", other),
	}
}

#[test]
fn number_keeps_its_literal() {
	match parse_val(&chars("012.50px")) {
		Ok(Dimension::Pixels(number)) => assert_eq!(number.as_str(), "012.50"),
		other => panic!("expected pixels, got {:?}", other),
	}
}

#[test]
fn auto_is_case_sensitive() {
	assert_eq!(error("Auto"), "invalid gap tag `Auto`: invalid float literal");
	assert_eq!(error("AUTO"), "invalid gap tag `AUTO`: invalid float literal");
}

#[test]
fn suffix_without_number_is_empty_float() {
	assert_eq!(error("%"), "invalid gap tag `%`: cannot parse float from empty string");
	assert_eq!(error("vmax"), "invalid gap tag `vmax`: cannot parse float from empty string");
	assert_eq!(error(""), "invalid gap tag ``: cannot parse float from empty string");
}

#[test]
fn suffix_with_bad_number_is_invalid_float() {
	assert_eq!(error("1 px"), "invalid gap tag `1 px`: invalid float literal");
	assert_eq!(error("ten%"), "invalid gap tag `ten%`: invalid float literal");
	assert_eq!(error("1pxpx"), "invalid gap tag `1pxpx`: invalid float literal");
	assert_eq!(error("1PX"), "invalid gap tag `1PX`: invalid float literal");
}

#[test]
fn first_suffix_that_matches_decides() {
	// `vmax` is tried before `vw` and `vh`, `px` before them all but `%`
	assert!(matches!(parse_val(&chars("1vmax")), Ok(Dimension::ViewportMax(_))));
	assert!(matches!(parse_val(&chars("1vmin")), Ok(Dimension::ViewportMin(_))));
	assert_eq!(error("1vwpx"), "invalid gap tag `1vwpx`: invalid float literal");
	assert_eq!(error("1px%"), "invalid gap tag `1px%`: invalid float literal");
}

#[test]
fn special_floats() {
	match parse_val(&chars("inf")) {
		Ok(Dimension::Pixels(number)) => assert_eq!(value(&number), f32::INFINITY),
		other => panic!("expected pixels, got {:?}", other),
	}
	match parse_val(&chars("-Infinity%")) {
		Ok(Dimension::Percent(number)) => assert_eq!(value(&number), f32::NEG_INFINITY),
		other => panic!("expected percent, got {:?}", other),
	}
	match parse_val(&chars("NaNpx")) {
		Ok(Dimension::Pixels(number)) => assert!(value(&number).is_nan()),
		other => panic!("expected pixels, got {:?}", other),
	}
}

#[test]
fn float_literals_are_those_that_parse() {
	let literals = [
		"", "0", "7", "007", "12.25", "1.", ".5", ".", "+", "-", "+1", "-1", "--1", "+-1", "1e5",
		"1E5", "1e+5", "1e-5", "1e", "1e+", "e5", ".e5", "1.e5", ".5e5", "1.5e5", "1e5.5", "1e5e5",
		"1..5", "1.5.5", "1 ", " 1", "1_000", "0x10", "1f32", "inf", "INF", "Inf", "+inf", "-inf",
		"infinity", "INFINITY", "-Infinity", "infinit", "infinityy", "in", "nan", "NaN", "NAN",
		"+nan", "-nan", "nane", "na", "1inf", "inf1", "١٢", "１", "1,5", "1e٥",
		"340282350000000000000000000000000000000", "1e400", "-1e-400", "0.0000000001",
	];
	for literal in literals {
		assert_eq!(
			float_literal(&chars(literal)),
			literal.parse::<f32>().is_ok(),
			"{:?}",
			literal
		);
		assert_eq!(Number::new(&chars(literal)).is_some(), literal.parse::<f32>().is_ok());
	}
}

#[test]
fn float_error_is_the_one_of_the_float_parser() {
	let empty = "".parse::<f32>().unwrap_err().to_string();
	let invalid = "x".parse::<f32>().unwrap_err().to_string();
	assert_eq!(error(""), format!("invalid gap tag ``: {}", empty));
	assert_eq!(error("x"), format!("invalid gap tag `x`: {}", invalid));
	assert_eq!(error("xpx"), format!("invalid gap tag `xpx`: {}", invalid));
}

#[test]
fn number_clones_and_compares() {
	let number = Number::new(&chars("1.5")).unwrap();
	assert_eq!(number.clone(), number);
	assert_ne!(Number::new(&chars("1.50")).unwrap(), number);
	assert_eq!(Dimension::Pixels(number.clone()).clone(), Dimension::Pixels(number));
}

#[test]
fn number_written_with_its_unit_reads_back() {
	let units: [(&str, fn(Number) -> Dimension); 6] = [
		("%", Dimension::Percent),
		("px", Dimension::Pixels),
		("vmax", Dimension::ViewportMax),
		("vmin", Dimension::ViewportMin),
		("vw", Dimension::ViewportWidth),
		("vh", Dimension::ViewportHeight),
	];
	for literal in ["0", "12.25", "-1.", ".5e-3", "+7E2", "inf", "-Infinity", "NaN"] {
		let number = Number::new(&chars(literal)).unwrap();
		for (suffix, unit) in units {
			let written = format!("{}{}", literal, suffix);
			assert_eq!(parse_val(&chars(&written)), Ok(unit(number.clone())), "{:?}", written);
		}
	}
}
