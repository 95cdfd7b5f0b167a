use vyotiq_backend::chunker::chunk_text;

#[test]
fn test_chunk_text_basic() {
    let content = "line1\nline2\nline3\nline4\nline5";
    let chunks = chunk_text(content, 20, 5, 100);
    assert!(!chunks.is_empty());
    // First chunk should start at line 1
    assert_eq!(chunks[0].1, 1);
}

#[test]
fn test_chunk_text_empty() {
    let chunks = chunk_text("", 512, 64, 100);
    assert!(chunks.is_empty());
}

#[test]
fn test_chunk_text_small() {
    let content = "hello world";
    let chunks = chunk_text(content, 512, 64, 100);
    assert_eq!(chunks.len(), 1);
    assert_eq!(chunks[0].0, "hello world");
}

#[test]
fn test_chunk_text_max_chunks() {
    let content = (0..1000).map(|i| format!("line {}", i)).collect::<Vec<_>>().join("\n");
    let chunks = chunk_text(&content, 50, 10, 5);
    assert!(chunks.len() <= 5);
}

#[test]
fn chunk_text_exact_boundaries() {
    // Each line costs 6 bytes. Three lines fit into 20; the fourth closes the chunk.
    let content = "line1\nline2\nline3\nline4\nline5";
    let chunks = chunk_text(content, 20, 5, 100);
    assert_eq!(
        chunks,
        vec![
            ("line1\nline2\nline3".to_string(), 1, 3),
            ("line3\nline4\nline5".to_string(), 3, 5),
        ]
    );
}

#[test]
fn chunk_text_zero_overlap_keeps_last_line() {
    let content = "aa\nbb\ncc\ndd";
    // cost 3 per line, max 6: two lines per chunk.
    let chunks = chunk_text(content, 6, 0, 100);
    assert_eq!(
        chunks,
        vec![
            ("aa\nbb".to_string(), 1, 2),
            ("bb\ncc".to_string(), 2, 3),
            ("cc\ndd".to_string(), 3, 4),
        ]
    );
}

#[test]
fn chunk_text_overlap_larger_than_chunk_keeps_nothing() {
    let content = "aa\nbb\ncc\ndd";
    let chunks = chunk_text(content, 6, 100, 100);
    assert_eq!(
        chunks,
        vec![("aa\nbb".to_string(), 1, 2), ("cc\ndd".to_string(), 3, 4)]
    );
}

#[test]
fn chunk_text_long_line_stands_alone() {
    let content = "short\nthis line is far longer than the limit\nend";
    let chunks = chunk_text(content, 10, 0, 100);
    assert_eq!(chunks[0], ("short".to_string(), 1, 1));
    assert_eq!(chunks.last().unwrap().2, 3);
    for w in chunks.windows(2) {
        assert!(w[0].2 < w[1].2);
        assert!(w[1].1 <= w[0].2 + 1);
    }
}

#[test]
fn chunk_text_zero_max_chunks_gives_nothing() {
    assert!(chunk_text("a\nb\nc", 2, 0, 0).is_empty());
}

#[test]
fn chunk_text_carriage_returns_are_dropped() {
    let chunks = chunk_text("a\r\nb\r\n", 100, 0, 10);
    assert_eq!(chunks, vec![("a\nb".to_string(), 1, 2)]);
}

#[test]
fn chunk_text_counts_bytes_not_characters() {
    // "é" takes two bytes: each line costs 5, so two lines do not fit into 9.
    let chunks = chunk_text("éé\néé", 9, 0, 10);
    assert_eq!(chunks.len(), 2);
    let chunks = chunk_text("ee\nee", 9, 0, 10);
    assert_eq!(chunks.len(), 1);
}

#[test]
fn chunk_text_stitches_back_to_the_lines() {
    let content = (0..200).map(|i| format!("row number {}", i)).collect::<Vec<_>>().join("\n");
    let lines: Vec<&str> = content.lines().collect();
    let chunks = chunk_text(&content, 64, 16, 1000);
    let mut rebuilt: Vec<String> = Vec::new();
    let mut covered = 0usize;
    for (text, first, last) in &chunks {
        assert!(1 <= *first && first <= last && *last <= lines.len());
        let own: Vec<&str> = text.split('\n').collect();
        assert_eq!(own.len(), last - first + 1);
        let skip = covered - (first - 1);
        for l in &own[skip..] {
            rebuilt.push(l.to_string());
        }
        covered = *last;
    }
    assert_eq!(rebuilt, lines);
}

/// The chunker written as one pass over the lines, for comparison.
fn one_pass(content: &str, max_chars: usize, overlap: usize, max_chunks: usize) -> Vec<(String, usize, usize)> {
    let lines: Vec<&str> = content.lines().collect();
    let mut chunks = Vec::new();
    if lines.is_empty() || max_chunks == 0 {
        return chunks;
    }
    let mut current_chars = 0usize;
    let mut chunk_start_line = 0usize;
    let mut chunk_lines: Vec<&str> = Vec::new();
    for (i, line) in lines.iter().enumerate() {
        let line_chars = line.len() + 1;
        if current_chars + line_chars > max_chars && !chunk_lines.is_empty() {
            chunks.push((chunk_lines.join("\n"), chunk_start_line + 1, i));
            if chunks.len() >= max_chunks {
                break;
            }
            let mut overlap_chars = 0;
            let mut overlap_start = chunk_lines.len();
            for (j, cl) in chunk_lines.iter().enumerate().rev() {
                overlap_chars += cl.len() + 1;
                if overlap_chars >= overlap {
                    overlap_start = j;
                    break;
                }
            }
            let kept_lines: Vec<&str> = chunk_lines[overlap_start..].to_vec();
            current_chars = kept_lines.iter().map(|l| l.len() + 1).sum();
            chunk_lines = kept_lines;
            chunk_start_line += overlap_start;
        }
        chunk_lines.push(line);
        current_chars += line_chars;
    }
    if !chunk_lines.is_empty() && chunks.len() < max_chunks {
        chunks.push((chunk_lines.join("\n"), chunk_start_line + 1, lines.len()));
    }
    chunks
}

#[test]
fn chunk_text_agrees_with_one_pass_over_the_lines() {
    // a small generator of numbers, the same on every run
    let mut seed: u64 = 0x9E3779B97F4A7C15;
    let mut next = move |bound: u64| {
        seed = seed.wrapping_mul(6364136223846793005).wrapping_add(1442695040888963407);
        (seed >> 33) % bound
    };
    let words = ["fn", "let x = 1;", "", "// é comment", "struct S { a: u8 }", "}", "    return;", "€", "a"];
    for round in 0..400 {
        let count = next(40) as usize;
        let mut content = String::new();
        for i in 0..count {
            for _ in 0..next(4) {
                content.push_str(words[next(words.len() as u64) as usize]);
                content.push(' ');
            }
            if i + 1 < count || next(2) == 0 {
                content.push_str(if next(5) == 0 { "\r\n" } else { "\n" });
            }
        }
        let max_chars = 1 + next(80) as usize;
        let overlap = next(40) as usize;
        let max_chunks = 1 + next(12) as usize;
        assert_eq!(
            chunk_text(&content, max_chars, overlap, max_chunks),
            one_pass(&content, max_chars, overlap, max_chunks),
            "round {} max_chars {} overlap {} max_chunks {} content {:?}",
            round,
            max_chars,
            overlap,
            max_chunks,
            content
        );
    }
}
