use dns::header::Header;
use dns::message::Message;
use dns::DnsError;

fn query(id: u16, names: Vec<&str>) -> Message {
    let mut m = Message::with_header(Header::with_id(id));
    m.set_questions(names.into_iter().map(String::from).collect()).unwrap();
    m
}

#[test]
fn message_set_questions() {
    let mut options = Message::new();
    options.set_questions(vec!["www.google.com".to_string()]).unwrap();
    println!("{:#?}", options);
    assert_eq!(
        options.question[0].qname,
        vec![3, 119, 119, 119, 6, 103, 111, 111, 103, 108, 101, 3, 99, 111, 109, 0]
    )
}

#[test]
fn new_message_is_empty() {
    let m = Message::new();
    assert_eq!(m.header.flags(), 0);
    assert_eq!(m.header.qdcount(), 0);
    assert_eq!(m.header.ancount(), 0);
    assert_eq!(m.header.nscount(), 0);
    assert_eq!(m.header.arcount(), 0);
    assert!(m.question.is_empty());
    assert!(m.answer.is_empty());
    assert!(m.authority.is_empty());
    assert!(m.additional.is_empty());
}

#[test]
fn set_questions_adds_one_question_per_name() {
    let mut m = query(1, vec!["a.b", "c"]);
    assert_eq!(m.question.len(), 2);
    assert_eq!(m.header.qdcount(), 2);
    assert_eq!(m.question[0].qname, vec![1, 97, 1, 98, 0]);
    assert_eq!(m.question[1].qname, vec![1, 99, 0]);
    assert_eq!(m.question[0].qtype(), 0);
    assert_eq!(m.question[0].qclass(), 0);
    m.set_questions(vec!["d".to_string()]).unwrap();
    assert_eq!(m.question.len(), 3);
    assert_eq!(m.header.qdcount(), 3);
    assert_eq!(m.question[0].qname, vec![1, 97, 1, 98, 0]);
    assert_eq!(m.question[2].qname, vec![1, 100, 0]);
    assert_eq!(m.header.id(), 1);
}

#[test]
fn set_questions_adds_nothing_when_one_name_is_too_long() {
    let mut m = query(1, vec!["first"]);
    let long = "x".repeat(64);
    let r = m.set_questions(vec!["ok.example".to_string(), long, "also.ok".to_string()]);
    assert_eq!(r, Err(DnsError::NameTooLong));
    assert_eq!(m.question.len(), 1);
    assert_eq!(m.header.qdcount(), 1);
    assert_eq!(m.question[0].qname, vec![5, 102, 105, 114, 115, 116, 0]);
}

#[test]
fn packet_of_one_question() {
    let mut m = query(0x1234, vec!["www.google.com"]);
    m.header.set_flags(0x0100).unwrap();
    m.question[0].set_qtype(1).unwrap();
    m.question[0].set_qclass(1).unwrap();
    assert_eq!(
        m.get_packet(),
        vec![
            0x12, 0x34, 0x01, 0x00, 0, 1, 0, 0, 0, 0, 0, 0, 3, 119, 119, 119, 6, 103, 111, 111,
            103, 108, 101, 3, 99, 111, 109, 0, 0, 1, 0, 1
        ]
    );
}

#[test]
fn packet_counts_the_questions_held() {
    let mut m = query(5, vec!["a", "b"]);
    m.question.pop();
    let bytes = m.get_packet();
    assert_eq!(bytes, vec![0, 5, 0, 0, 0, 1, 0, 0, 0, 0, 0, 0, 1, 97, 0, 0, 0, 0, 0]);
}

#[test]
fn round_trip_of_a_query() {
    let mut m = query(0xABCD, vec!["_minecraft._tcp.GrieferGames.de", "www.google.com", "x"]);
    m.header.set_flags(0b0001_0001_0000_0000).unwrap();
    m.question[0].set_qtype(33).unwrap();
    m.question[0].set_qclass(1).unwrap();
    m.question[1].set_qtype(255).unwrap();
    m.question[1].set_qclass(255).unwrap();
    m.question[2].set_qtype(32769).unwrap();
    m.question[2].set_qclass(65280).unwrap();
    let back = Message::from(m.get_packet()).unwrap();
    assert_eq!(back, m);
    assert_eq!(back.header.id(), 0xABCD);
    assert_eq!(back.header.flags(), 0b0001_0001_0000_0000);
    assert_eq!(back.header.qdcount(), 3);
    assert_eq!(back.question[0].qtype(), 33);
    assert_eq!(back.question[2].qclass(), 65280);
}

#[test]
fn round_trip_of_an_empty_message() {
    let m = Message::with_header(Header::with_id(9));
    let bytes = m.get_packet();
    assert_eq!(bytes, vec![0, 9, 0, 0, 0, 0, 0, 0, 0, 0, 0, 0]);
    assert_eq!(Message::from(bytes).unwrap(), m);
}

fn response() -> Vec<u8> {
    let mut buf: Vec<u8> = vec![
        0x00, 0x2A, 0x81, 0x80, // id 42, a response
        0, 2, 0, 1, 0, 1, 0, 1, // two questions, one record in each section
    ];
    // first question at 12: example.com, A, IN
    buf.extend(vec![7, 101, 120, 97, 109, 112, 108, 101, 3, 99, 111, 109, 0, 0, 1, 0, 1]);
    // second question at 29: a pointer to 12, AAAA, IN
    buf.extend(vec![0xC0, 12, 0, 28, 0, 1]);
    // answer at 35: pointer to 12, A, IN, ttl 0x01020304, four octets
    buf.extend(vec![0xC0, 12, 0, 1, 0, 1, 1, 2, 3, 4, 0, 4, 93, 184, 216, 34]);
    // authority at 51: "ns" + pointer to 12, NS, IN, ttl 0, no data
    buf.extend(vec![2, 110, 115, 0xC0, 12, 0, 2, 0, 1, 0, 0, 0, 0, 0, 0]);
    // additional at 66: the root, type 41, class 4096, ttl 0, two octets
    buf.extend(vec![0, 0, 41, 16, 0, 0, 0, 0, 0, 0, 2, 0xAA, 0xBB]);
    buf
}

#[test]
fn pointer_in_second_question_gives_the_same_name() {
    let m = Message::from(response()).unwrap();
    assert_eq!(m.question.len(), 2);
    assert_eq!(m.question[0].qname, vec![7, 101, 120, 97, 109, 112, 108, 101, 3, 99, 111, 109, 0]);
    assert_eq!(m.question[1].qname, m.question[0].qname);
    assert_eq!(m.question[0].qtype(), 1);
    assert_eq!(m.question[1].qtype(), 28);
    assert_eq!(m.question[1].qclass(), 1);
}

#[test]
fn parsed_message_holds_all_sections() {
    let m = Message::from(response()).unwrap();
    assert_eq!(m.header.id(), 42);
    assert_eq!(m.header.flags(), 0x8180);
    assert_eq!(m.header.qdcount(), 2);
    assert_eq!(m.header.ancount(), 1);
    assert_eq!(m.header.nscount(), 1);
    assert_eq!(m.header.arcount(), 1);
    assert_eq!(m.answer.len(), 1);
    assert_eq!(m.authority.len(), 1);
    assert_eq!(m.additional.len(), 1);
    let a = &m.answer[0];
    assert_eq!(a.name(), &m.question[0].qname);
    assert_eq!(a.rtype(), 1);
    assert_eq!(a.rclass(), 1);
    assert_eq!(a.ttl(), 0x01020304);
    assert_eq!(a.rdlength(), 4);
    assert_eq!(a.rdata(), &vec![93, 184, 216, 34]);
    let ns = &m.authority[0];
    assert_eq!(
        ns.name(),
        &vec![2, 110, 115, 7, 101, 120, 97, 109, 112, 108, 101, 3, 99, 111, 109, 0]
    );
    assert_eq!(ns.rtype(), 2);
    assert_eq!(ns.ttl(), 0);
    assert_eq!(ns.rdlength(), 0);
    assert_eq!(ns.rdata(), &Vec::<u8>::new());
    let opt = &m.additional[0];
    assert_eq!(opt.name(), &vec![0]);
    assert_eq!(opt.rtype(), 41);
    assert_eq!(opt.rclass(), 4096);
    assert_eq!(opt.rdlength(), 2);
    assert_eq!(opt.rdata(), &vec![0xAA, 0xBB]);
}

#[test]
fn octets_behind_the_last_record_are_not_looked_at() {
    let mut buf = response();
    let whole = Message::from(buf.clone()).unwrap();
    buf.extend(vec![1, 2, 3, 4, 5]);
    assert_eq!(Message::from(buf).unwrap(), whole);
}

#[test]
fn every_truncation_is_malformed() {
    let buf = response();
    assert!(Message::from(buf.clone()).is_ok());
    for cut in 0..buf.len() {
        assert_eq!(Message::from(buf[..cut].to_vec()), Err(DnsError::MalformedMessage));
    }
}

#[test]
fn counts_larger_than_the_buffer_are_malformed() {
    let buf: Vec<u8> = vec![0, 1, 0, 0, 0xFF, 0xFF, 0xFF, 0xFF, 0xFF, 0xFF, 0xFF, 0xFF];
    assert_eq!(Message::from(buf), Err(DnsError::MalformedMessage));
    let buf: Vec<u8> = vec![0, 1, 0, 0, 0, 0, 0, 0, 0, 0, 0, 1];
    assert_eq!(Message::from(buf), Err(DnsError::MalformedMessage));
    assert_eq!(Message::from(vec![]), Err(DnsError::MalformedMessage));
    assert_eq!(Message::from(vec![0; 11]), Err(DnsError::MalformedMessage));
    assert!(Message::from(vec![0; 12]).is_ok());
}

#[test]
fn cyclic_name_in_a_message_is_malformed() {
    let mut buf: Vec<u8> = vec![0, 1, 0, 0, 0, 1, 0, 0, 0, 0, 0, 0];
    buf.extend(vec![1, 97, 0xC0, 12, 0, 1, 0, 1]);
    assert_eq!(Message::from(buf), Err(DnsError::MalformedMessage));
}

#[test]
fn sending_a_parsed_message_again_keeps_the_questions() {
    let first = Message::from(response()).unwrap();
    let bytes = first.get_packet();
    // the pointer of the second question is written out, the records are left out
    assert_eq!(bytes.len(), 12 + 17 + 17);
    assert_eq!(bytes[..12].to_vec(), vec![0x00, 0x2A, 0x81, 0x80, 0, 2, 0, 0, 0, 0, 0, 0]);
    let second = Message::from(bytes.clone()).unwrap();
    assert_eq!(second.question, first.question);
    assert_eq!(second.header.id(), first.header.id());
    assert_eq!(second.header.flags(), first.header.flags());
    assert!(second.answer.is_empty());
    assert_eq!(second.get_packet(), bytes);
}

#[test]
fn get_resource_reads_one_record() {
    let buf = response();
    let (end, res) = Message::get_resource(&buf, 35).unwrap();
    assert_eq!(end, 51);
    assert_eq!(res.rtype(), 1);
    assert_eq!(res.ttl(), 16909060);
    assert_eq!(res.rdata(), &vec![93, 184, 216, 34]);
    let (end, res) = Message::get_resource(&buf, 51).unwrap();
    assert_eq!(end, 66);
    assert_eq!(res.rclass(), 1);
    let (end, _) = Message::get_resource(&buf, 66).unwrap();
    assert_eq!(end, buf.len());
}

#[test]
fn get_resource_needs_all_its_data() {
    let buf: Vec<u8> = vec![0, 0, 1, 0, 1, 0, 0, 0, 0, 0, 3, 1, 2];
    assert_eq!(Message::get_resource(&buf, 0), Err(DnsError::MalformedMessage));
    let buf: Vec<u8> = vec![0, 0, 1, 0, 1, 0, 0, 0, 0, 0];
    assert_eq!(Message::get_resource(&buf, 0), Err(DnsError::MalformedMessage));
    let buf: Vec<u8> = vec![0, 0, 1, 0, 1, 0, 0, 0, 0, 0, 3, 1, 2, 3];
    assert!(Message::get_resource(&buf, 0).is_ok());
    assert_eq!(Message::get_resource(&buf, 14), Err(DnsError::MalformedMessage));
}

#[test]
fn defaults_are_what_new_gives() {
    let m = Message::default();
    assert_eq!(m.header.flags(), 0);
    assert_eq!(m.header.qdcount(), 0);
    assert!(m.question.is_empty());
    assert!(m.answer.is_empty());
    let h = Header::default();
    assert_eq!(h.flags(), 0);
    assert_eq!(h.arcount(), 0);
    let q = dns::Question::default();
    assert_eq!(q, dns::Question::new());
}
