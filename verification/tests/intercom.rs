use xchain::blockcfg::{Block, Header, Transaction};
use xchain::intercom::{
    BlockMsg, BufferedReply, BufferedStreamReply, ClientMsg, Error, NetworkBroadcastMsg, Reply,
    StreamEvent, StreamReply,
};

#[test]
fn error_wraps_a_message() {
    let e = Error::from_error(String::from("storage failed"));
    assert_eq!(e.message, "storage failed");
    let e2 = Error::from(String::from("bad header"));
    assert_eq!(e2.message, "bad header");
}

#[test]
fn reply_dispatches_ok_and_error() {
    let mut reply: BufferedReply<u32> = BufferedReply::new();
    reply.reply(Ok(5));
    reply.reply(Err(Error::from_error(String::from("miss"))));
    reply.reply_ok(7);
    reply.reply_error(Error::from_error(String::from("gone")));

    assert_eq!(reply.len(), 4);
    assert_eq!(reply.get(0), &Ok(5));
    assert_eq!(reply.get(1), &Err(Error { message: String::from("miss") }));
    assert_eq!(reply.get(2), &Ok(7));
    assert_eq!(reply.get(3), &Err(Error { message: String::from("gone") }));
}

#[test]
fn stream_reply_records_items_errors_and_close() {
    let mut stream: BufferedStreamReply<u64> = BufferedStreamReply::new();
    stream.send(1);
    stream.send(2);
    stream.send_error(Error::from_error(String::from("cut")));
    stream.close();

    assert_eq!(stream.len(), 4);
    assert_eq!(stream.get(0), &StreamEvent::Item(1));
    assert_eq!(stream.get(1), &StreamEvent::Item(2));
    assert_eq!(stream.get(2), &StreamEvent::Failed(Error { message: String::from("cut") }));
    assert_eq!(stream.get(3), &StreamEvent::Closed);
}

#[test]
fn message_shapes_carry_their_payloads() {
    let b = Block { header: Header { hash: 1, parent: 0, date: 9 } };

    let msg = BlockMsg::NetworkBlock(b);
    assert!(matches!(msg, BlockMsg::NetworkBlock(nb) if nb == b));
    let msg = BlockMsg::LeadershipBlock(b);
    assert!(matches!(msg, BlockMsg::LeadershipBlock(lb) if lb == b));

    let tx = Transaction { id: 4, payload: vec![1, 2, 3] };
    let bcast = NetworkBroadcastMsg::Transaction(tx.clone());
    assert!(matches!(bcast, NetworkBroadcastMsg::Transaction(t) if t == tx));
    let bcast = NetworkBroadcastMsg::Header(b.header);
    assert!(matches!(bcast, NetworkBroadcastMsg::Header(h) if h == b.header));
    let bcast = NetworkBroadcastMsg::Block(b);
    assert!(matches!(bcast, NetworkBroadcastMsg::Block(nb) if nb == b));

    let tip_req: ClientMsg<BufferedReply<Header>, BufferedReply<Vec<Header>>, BufferedStreamReply<Block>> =
        ClientMsg::GetBlockTip(BufferedReply::new());
    match tip_req {
        ClientMsg::GetBlockTip(mut reply) => {
            reply.reply_ok(b.header);
            assert_eq!(reply.get(0), &Ok(b.header));
        },
        _ => panic!("expected a tip request"),
    }

    let range_req: ClientMsg<BufferedReply<Header>, BufferedReply<Vec<Header>>, BufferedStreamReply<Block>> =
        ClientMsg::GetBlocks(1, 2, BufferedStreamReply::new());
    match range_req {
        ClientMsg::GetBlocks(from, to, mut stream) => {
            assert_eq!((from, to), (1, 2));
            stream.send(b);
            stream.close();
            assert_eq!(stream.len(), 2);
        },
        _ => panic!("expected a block-range request"),
    }
}

#[test]
fn header_request_carries_locators() {
    let locators = vec![5, 6, 7];
    let req: ClientMsg<BufferedReply<Header>, BufferedReply<Vec<Header>>, BufferedStreamReply<Block>> =
        ClientMsg::GetBlockHeaders(locators.clone(), 9, BufferedReply::new());
    match req {
        ClientMsg::GetBlockHeaders(ls, target, mut reply) => {
            assert_eq!(ls, locators);
            assert_eq!(target, 9);
            reply.reply_error(Error::from_error(String::from("not known")));
            assert!(matches!(reply.get(0), Err(_)));
        },
        _ => panic!("expected a header request"),
    }
}
