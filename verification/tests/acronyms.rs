use cases::acronyms::get_acronym;
use cases::{to_camel, to_pascal, to_title, to_train};
use pyo3::types::PyDict;
use pyo3::Python;

#[test]
fn camel_takes_a_later_word_from_the_table() {
    pyo3::prepare_freethreaded_python();
    Python::with_gil(|py| {
        let table = PyDict::new(py);
        table.set_item("http", "HTTP").unwrap();
        assert_eq!(to_camel("foo_http_server", Some(table)), "fooHTTPServer");
    });
}

#[test]
fn camel_lowers_the_first_word_though_the_table_has_it() {
    pyo3::prepare_freethreaded_python();
    Python::with_gil(|py| {
        let table = PyDict::new(py);
        table.set_item("http", "HTTP").unwrap();
        table.set_item("foo", "FOO").unwrap();
        assert_eq!(to_camel("http_foo", Some(table)), "httpFOO");
        assert_eq!(to_camel("HTTP", Some(table)), "http");
        assert_eq!(to_pascal("http_foo", Some(table)), "HTTPFOO");
    });
}

#[test]
fn title_forms_take_words_from_the_table() {
    pyo3::prepare_freethreaded_python();
    Python::with_gil(|py| {
        let table = PyDict::new(py);
        table.set_item("http", "HTTP").unwrap();
        table.set_item("id", "ID").unwrap();
        assert_eq!(to_pascal("http_server_id", Some(table)), "HTTPServerID");
        assert_eq!(to_train("httpServerId", Some(table)), "HTTP-Server-ID");
        assert_eq!(to_title("Http server ID", Some(table)), "HTTP Server ID");
    });
}

#[test]
fn the_table_gives_its_text_as_it_stands() {
    pyo3::prepare_freethreaded_python();
    Python::with_gil(|py| {
        let table = PyDict::new(py);
        table.set_item("http", "h-T-t-P").unwrap();
        table.set_item("x", "").unwrap();
        assert_eq!(to_title("http x y", Some(table)), "h-T-t-P  Y");
    });
}

#[test]
fn a_table_without_the_word_changes_nothing() {
    pyo3::prepare_freethreaded_python();
    Python::with_gil(|py| {
        let table = PyDict::new(py);
        assert_eq!(to_title("http server", Some(table)), to_title("http server", None));
        table.set_item("ftp", "FTP").unwrap();
        table.set_item("HTTP", "upper key").unwrap();
        assert_eq!(to_camel("foo http server", Some(table)), to_camel("foo http server", None));
        assert_eq!(to_pascal("http server", Some(table)), to_pascal("http server", None));
        assert_eq!(to_train("http server", Some(table)), to_train("http server", None));
        assert_eq!(to_title("http server", Some(table)), "Http Server");
    });
}

#[test]
fn a_value_that_is_no_text_changes_nothing() {
    pyo3::prepare_freethreaded_python();
    Python::with_gil(|py| {
        let table = PyDict::new(py);
        table.set_item("http", 42).unwrap();
        table.set_item("server", py.None()).unwrap();
        table.set_item("id", vec!["ID"]).unwrap();
        assert_eq!(to_camel("foo http server id", Some(table)), "fooHttpServerId");
        assert_eq!(to_pascal("http server id", Some(table)), "HttpServerId");
        assert_eq!(to_train("http server id", Some(table)), "Http-Server-Id");
        assert_eq!(to_title("http server id", Some(table)), "Http Server Id");
    });
}

#[test]
fn a_key_that_is_no_text_is_passed_over() {
    pyo3::prepare_freethreaded_python();
    Python::with_gil(|py| {
        let table = PyDict::new(py);
        table.set_item(1, "one").unwrap();
        table.set_item("1", "ONE").unwrap();
        assert_eq!(to_title("1 2", Some(table)), "ONE 2");
    });
}

#[test]
fn get_acronym_looks_up_the_lowercase_form() {
    pyo3::prepare_freethreaded_python();
    Python::with_gil(|py| {
        let table = PyDict::new(py);
        table.set_item("http", "HTTP").unwrap();
        table.set_item("n", 3).unwrap();
        assert_eq!(get_acronym("http", Some(table)), Some("HTTP"));
        assert_eq!(get_acronym("HTTP", Some(table)), Some("HTTP"));
        assert_eq!(get_acronym("Http", Some(table)), Some("HTTP"));
        assert_eq!(get_acronym("https", Some(table)), None);
        assert_eq!(get_acronym("n", Some(table)), None);
        assert_eq!(get_acronym("", Some(table)), None);
    });
}

#[test]
fn get_acronym_without_a_table_finds_nothing() {
    assert_eq!(get_acronym("http", None), None);
    assert_eq!(get_acronym("", None), None);
}

#[test]
fn get_acronym_lowers_a_final_sigma_as_one() {
    pyo3::prepare_freethreaded_python();
    Python::with_gil(|py| {
        let table = PyDict::new(py);
        table.set_item("οδος", "final").unwrap();
        assert_eq!(get_acronym("ΟΔΟΣ", Some(table)), Some("final"));
        let table = PyDict::new(py);
        table.set_item("οδοσ", "medial").unwrap();
        assert_eq!(get_acronym("ΟΔΟΣ", Some(table)), None);
    });
}
