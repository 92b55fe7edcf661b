use csv_processor::csv_processing::{process_csv_file, route_record, CsvProcessingTab};
use csv_processor::email_comparison::EmailComparisonTab;
use csv_processor::email_search::{EmailSearchTab, Readiness};
use csv_processor::messages;
use csv_processor::phone_extraction::{extract_phone_numbers, format_number, Extraction, PhoneExtractionTab};
use csv_processor::targets::load_targets;
use csv_processor::text::contains_text;

fn strings(items: &[&str]) -> Vec<String> {
    items.iter().map(|s| s.to_string()).collect()
}

fn chars(s: &str) -> Vec<char> {
    s.chars().collect()
}

#[test]
fn a_fresh_filter_has_the_default_lists() {
    let tab = CsvProcessingTab::new();
    assert_eq!(tab.states, "NY,OH,PA,WA,AK");
    assert_eq!(tab.email_domains, "@gmail.com");
    assert_eq!(tab.state_list(), strings(&["NY", "OH", "PA", "WA", "AK"]));
    assert_eq!(tab.domain_list(), strings(&["@gmail.com"]));
    let tab = CsvProcessingTab { states: " NY , OH".to_string(), email_domains: String::new() };
    assert_eq!(tab.state_list(), strings(&["NY", "OH"]));
    assert_eq!(tab.domain_list(), strings(&[""]));
    assert_eq!(CsvProcessingTab::output_file_name("NY"), "output_NY.csv");
}

#[test]
fn a_record_goes_to_its_first_state_if_a_domain_fits() {
    let states = strings(&["NY", "OH", "PA"]);
    let domains = strings(&["@gmail.com", "@yahoo.com"]);
    let none: Vec<String> = Vec::new();
    assert_eq!(route_record(&strings(&["Jo", " OH ", "Jo@Gmail.com"]), &states, &domains), Some(1));
    assert_eq!(route_record(&strings(&["PA", "NY", "x@yahoo.com"]), &states, &domains), Some(0));
    assert_eq!(route_record(&strings(&["Jo", "OH", "jo@aol.com"]), &states, &domains), None);
    assert_eq!(route_record(&strings(&["Jo", "OH", "jo@aol.com"]), &states, &none), Some(1));
    assert_eq!(route_record(&strings(&["Jo", "oh", "jo@gmail.com"]), &states, &domains), None);
    assert_eq!(route_record(&strings(&["Jo", "OHIO", "jo@gmail.com"]), &states, &domains), None);
    assert_eq!(route_record(&strings(&["Jo", "OH", "jo@aol.com"]), &states, &strings(&[""])), Some(1));
    assert_eq!(route_record(&strings(&["Jo", "OH", "jo@GMAIL.com"]), &states, &strings(&["@GMAIL.com"])), None);
    assert_eq!(route_record(&none, &states, &none), None);
    assert_eq!(route_record(&strings(&["NY"]), &none, &none), None);
}

#[test]
fn records_of_a_file_are_read_and_routed() {
    let states = strings(&["NY", "OH"]);
    let domains = strings(&["@gmail.com"]);
    let content = b"a@gmail.com,NY,1\n\"b, c@gmail.com\",OH,2\nd@aol.com,NY,3\nx,TX,4\n";
    let out = process_csv_file(content, &states, &domains);
    assert_eq!(out.failure, None);
    assert_eq!(out.rows.len(), 4);
    assert_eq!(out.rows[1], strings(&["b, c@gmail.com", "OH", "2"]));
    assert_eq!(out.states, vec![Some(0), Some(1), None, None]);
}

#[test]
fn reading_stops_at_the_first_bad_record() {
    let states = strings(&["NY"]);
    let out = process_csv_file(b"a,NY\nb,NY,extra\nc,NY\n", &states, &Vec::new());
    assert_eq!(out.rows, vec![strings(&["a", "NY"])]);
    assert_eq!(out.states, vec![Some(0)]);
    assert!(out.failure.is_some());
}

#[test]
fn text_occurs_in_text() {
    assert!(contains_text(&chars("jo@gmail.com"), &chars("@gmail.com")));
    assert!(contains_text(&chars("jo@gmail.com"), &chars("jo@gmail.com")));
    assert!(contains_text(&chars("jo@gmail.com"), &chars("")));
    assert!(contains_text(&chars(""), &chars("")));
    assert!(!contains_text(&chars("jo@gmail.co"), &chars("@gmail.com")));
    assert!(!contains_text(&chars(""), &chars("a")));
    assert!(contains_text(&chars("aab"), &chars("ab")));
}

#[test]
fn telephone_numbers_are_found_and_formatted() {
    assert_eq!(format_number("(555) 123-4567"), "+15551234567");
    assert_eq!(format_number("(555)\t123-4567"), "+1555\t1234567");
    assert_eq!(format_number(""), "+1");
    let content = b"Jo,(555) 123-4567,x\nAl,call (212)555-0000 or (999) 000-1111,(1) 2\n";
    match extract_phone_numbers(content) {
        Extraction::Numbers(numbers) => assert_eq!(numbers, strings(&["+15551234567", "+12125550000"])),
        _ => panic!("no numbers"),
    }
    match extract_phone_numbers(b"a,b\nc\n(555) 123-4567\n") {
        Extraction::Unreadable(reason) => assert!(!reason.is_empty()),
        _ => panic!("the bad record was read"),
    }
    match extract_phone_numbers(b"") {
        Extraction::Numbers(numbers) => assert!(numbers.is_empty()),
        _ => panic!("no numbers"),
    }
    let _ = PhoneExtractionTab::new();
    assert_eq!(PhoneExtractionTab::numbers_file_name(), "phone_numbers.txt");
}

#[test]
fn addresses_are_compared_without_case_and_blanks() {
    let tab = EmailComparisonTab::new();
    assert!(tab.file1_path.is_none() && tab.file2_path.is_none() && tab.output_path.is_none());
    assert!(!tab.is_ready());
    let first = b" A@x.com \n\nb@x.com\nB@X.COM\n\xff\nc@x.com";
    let second = b"c@x.com\r\nd@x.com\na@X.com\n   \n";
    assert_eq!(tab.read_emails(first), strings(&["a@x.com", "b@x.com", "c@x.com"]));
    assert_eq!(tab.read_emails(second), strings(&["c@x.com", "d@x.com", "a@x.com"]));
    assert_eq!(tab.compare_email_lists(first, second), strings(&["b@x.com", "d@x.com"]));
    assert_eq!(tab.compare_email_lists(first, first), Vec::<String>::new());
    assert_eq!(tab.compare_email_lists(b"", second).len(), 3);
    let ready = EmailComparisonTab {
        file1_path: Some("a".to_string()),
        file2_path: Some("b".to_string()),
        output_path: Some("c".to_string()),
    };
    assert!(ready.is_ready());
}

#[test]
fn targets_are_the_lines_of_the_list() {
    assert_eq!(load_targets(b"a@x.com\nB@x.com\r\n\n c \n\xff\xfe\nlast"), strings(&["a@x.com", "B@x.com", "", " c ", "last"]));
    assert_eq!(load_targets(b""), Vec::<String>::new());
    assert_eq!(load_targets(b"\n"), strings(&[""]));
    assert_eq!(load_targets(b"a\r"), strings(&["a\r"]));
    assert_eq!(load_targets(b"a\r\r\n"), strings(&["a\r"]));
}

#[test]
fn the_search_tab_starts_a_run_only_when_all_is_chosen() {
    let mut tab = EmailSearchTab::new();
    assert!(tab.emails.is_empty() && !tab.search_in_progress);
    assert!(tab.readiness() == Readiness::Missing);
    tab.load_emails(b"a@x.com\n");
    assert!(tab.emails.is_empty());
    tab.email_list_path = Some("list.txt".to_string());
    tab.load_emails(b"a@x.com\nb@x.com\n");
    assert_eq!(tab.emails, strings(&["a@x.com", "b@x.com"]));
    assert!(tab.readiness() == Readiness::Missing);
    tab.folder_path = Some("data".to_string());
    assert!(tab.readiness() == Readiness::Ready);
    let status = tab.begin("data/search_results.csv".to_string(), Some("denied".to_string()));
    assert_eq!(status, "Error creating results file: denied");
    assert!(!tab.search_in_progress);
    assert!(tab.readiness() == Readiness::Ready);
    let status = tab.begin("data/search_results.csv".to_string(), None);
    assert_eq!(status, "Search in progress...");
    assert!(tab.search_in_progress);
    assert_eq!(tab.results_file_path.as_deref(), Some("data/search_results.csv"));
    assert!(tab.readiness() == Readiness::Busy);
    assert_eq!(EmailSearchTab::results_file_name(), "search_results.csv");
    assert_eq!(EmailSearchTab::missing_selection(), "Please select a folder and email list first");
}

#[test]
fn messages_have_their_wording() {
    assert_eq!(messages::starting(), "Starting search...");
    assert_eq!(messages::searching_folder("d"), "Searching in folder: d");
    assert_eq!(messages::searching_file("d/f.csv"), "Searching file: d/f.csv");
    assert_eq!(messages::unreadable("d", "denied"), "Error reading d: denied");
    assert_eq!(messages::undecodable_file("f"), "Error decoding file: f");
    assert_eq!(messages::undecodable_line("f", 12), "Error decoding line 12 of f");
    assert_eq!(messages::unexpected_reply("f"), "Unexpected reply for f");
    assert_eq!(messages::match_found("3,a,b,c\n"), "Match found: 3,a,b,c\n");
    assert_eq!(messages::write_failed("full"), "Error writing result: full");
    assert_eq!(messages::search_failed("a@x.com", "gone"), "Error searching email a@x.com: gone");
    assert_eq!(messages::completed(), "Search completed.");
    assert_eq!(messages::progress(3, 10), "Processed: 3/10");
    assert_eq!(messages::comparison_complete(0), "Comparison complete. 0 unique emails found.");
    assert_eq!(messages::comparison_failed("gone"), "Error during comparison: gone");
    assert_eq!(messages::comparison_missing(), "Please select both input files and an output file.");
    assert_eq!(messages::processing_failed("f", "bad"), "Error processing f: bad");
    assert_eq!(messages::processed("f"), "Processed: f");
    assert_eq!(messages::all_processed(), "All files processed");
    assert_eq!(messages::extracted("f"), "Extracted phone numbers from: f");
    assert_eq!(messages::saving_failed("full"), "Error saving phone numbers: full");
    assert_eq!(messages::saved(), "Phone numbers extracted and saved to 'phone_numbers.txt'");
}
