use pdfgrep::{is_pdf_file, select_pdf_files};

#[test]
fn directory_scan_selects_the_pdf_extension_only() {
    let names = vec![String::from("a.pdf"), String::from("b.txt"), String::from("c.PDF")];
    assert_eq!(select_pdf_files(&names), vec![0]);
}

#[test]
fn selection_keeps_the_order_of_the_listing() {
    let names: Vec<String> =
        ["z.pdf", "notes", "a.pdf", "pdf", ".pdf", "x.pdf.txt", "m.tar.pdf"].iter().map(|n| n.to_string()).collect();
    assert_eq!(select_pdf_files(&names), vec![0, 2, 6]);
    assert!(select_pdf_files(&Vec::new()).is_empty());
}

#[test]
fn extension_agrees_with_std() {
    let names = [
        "a.pdf", "b.txt", "c.PDF", ".pdf", "..pdf", "pdf", "a.pdf.", "a.b.pdf", "", ".", "a.Pdf",
        "\u{e9}.pdf", "apdf", "a.pdfx", "x.pdf ",
    ];
    for name in names {
        let expected = std::path::Path::new(name).extension().is_some_and(|ext| ext == "pdf");
        assert_eq!(is_pdf_file(name), expected, "name {:?}", name);
    }
}
